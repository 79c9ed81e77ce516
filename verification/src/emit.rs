//! The source text of a plan: the statements of its bindings and its
//! construction expression.

use crate::model::FieldSetShape;
use crate::plan::{
    binding_views, initializer_views, Binding, BindingValue, BindingValueView, BindingView,
    InitPlan, InitPlanView, Initializer, InitializerView,
};
use vstd::prelude::*;
use vstd::string::StringExecFns;

verus! {

/// The statement of a binding: `let name = expr;` for the supplied value,
/// `let name = func(&instance);` for a computed one.
pub open spec fn binding_text(binding: BindingView) -> Seq<char> {
    match binding.value {
        BindingValueView::External(expr) => "let "@ + binding.name + " = "@ + expr + ";"@,
        BindingValueView::Computed(func) => "let "@ + binding.name + " = "@ + func
            + "(&instance);"@,
    }
}

/// The text of an initializer, with the comma that ends it: `name,`,
/// `field: expr,`, `expr,`, `field: Default::default(),` or
/// `Default::default(),`.
pub open spec fn initializer_text(initializer: InitializerView) -> Seq<char> {
    match initializer {
        InitializerView::Bound { name } => name + ","@,
        InitializerView::Expr { field: Some(field), expr } => field + ": "@ + expr + ","@,
        InitializerView::Expr { field: None, expr } => expr + ","@,
        InitializerView::TypeDefault { field: Some(field) } => field + ": Default::default(),"@,
        InitializerView::TypeDefault { field: None } => "Default::default(),"@,
    }
}

/// The texts of the initializers in order, each followed by one space.
pub open spec fn initializers_text(initializers: Seq<InitializerView>) -> Seq<char>
    decreases initializers.len(),
{
    if initializers.len() == 0 {
        Seq::empty()
    } else {
        initializers_text(initializers.drop_last()) + initializer_text(initializers.last()) + " "@
    }
}

/// The construction expression without the name of the type: the
/// initializers in braces for a named shape, in parentheses for a positional
/// one, and nothing for a unit.
pub open spec fn construction_text(plan: InitPlanView) -> Seq<char> {
    match plan.shape {
        FieldSetShape::Named => "{ "@ + initializers_text(plan.initializers) + "}"@,
        FieldSetShape::Positional => "( "@ + initializers_text(plan.initializers) + ")"@,
        FieldSetShape::Unit => Seq::empty(),
    }
}

/// The statements of the bindings, in order.
pub open spec fn binding_texts(bindings: Seq<BindingView>) -> Seq<Seq<char>> {
    bindings.map_values(|b: BindingView| binding_text(b))
}

impl Binding {
    /// The statement of the binding.
    pub fn text(&self) -> (r: String)
        ensures
            r@ == binding_text(self@),
    {
        let mut out = String::from_str("let ");
        out.append(self.name.as_str());
        out.append(" = ");
        match &self.value {
            BindingValue::External(expr) => {
                out.append(expr.as_str());
                out.append(";");
            },
            BindingValue::Computed(func) => {
                out.append(func.as_str());
                out.append("(&instance);");
            },
        }
        out
    }
}

impl Initializer {
    /// The text of the initializer, with the comma that ends it.
    pub fn text(&self) -> (r: String)
        ensures
            r@ == initializer_text(self@),
    {
        let mut out = String::new();
        match self {
            Initializer::Bound { name } => {
                out.append(name.as_str());
                out.append(",");
            },
            Initializer::Expr { field, expr } => {
                match field {
                    Some(field) => {
                        out.append(field.as_str());
                        out.append(": ");
                    },
                    None => {},
                }
                out.append(expr.as_str());
                out.append(",");
            },
            Initializer::TypeDefault { field } => {
                match field {
                    Some(field) => {
                        out.append(field.as_str());
                        out.append(": Default::default(),");
                    },
                    None => {
                        out.append("Default::default(),");
                    },
                }
            },
        }
        out
    }
}

impl InitPlan {
    /// The construction expression of the plan, without the name of the type.
    pub fn construction_text(&self) -> (r: String)
        ensures
            r@ == construction_text(self@),
    {
        let mut out = String::new();
        match self.shape {
            FieldSetShape::Named => {
                out.append("{ ");
            },
            FieldSetShape::Positional => {
                out.append("( ");
            },
            FieldSetShape::Unit => {
                return out;
            },
        }
        let ghost open = out@;
        let ghost views = initializer_views(self.initializers@);
        let mut i: usize = 0;
        while i < self.initializers.len()
            invariant
                i <= self.initializers.len(),
                views == initializer_views(self.initializers@),
                out@ == open + initializers_text(views.take(i as int)),
            decreases self.initializers.len() - i,
        {
            assert(views.take(i + 1).drop_last() =~= views.take(i as int));
            let text = self.initializers[i].text();
            out.append(text.as_str());
            out.append(" ");
            i += 1;
        }
        assert(views.take(i as int) =~= views);
        match self.shape {
            FieldSetShape::Named => {
                out.append("}");
            },
            FieldSetShape::Positional => {
                out.append(")");
            },
            FieldSetShape::Unit => {},
        }
        out
    }

    /// The statements of the bindings of the plan, in the order in which they
    /// have to run.
    pub fn binding_texts(&self) -> (r: Vec<String>)
        ensures
            crate::text::texts(r@) == binding_texts(self@.bindings),
    {
        let mut out: Vec<String> = Vec::new();
        let mut i: usize = 0;
        while i < self.bindings.len()
            invariant
                i <= self.bindings.len(),
                out.len() == i,
                forall|j: int|
                    0 <= j < i ==> (#[trigger] out@[j])@ == binding_text(self.bindings@[j]@),
            decreases self.bindings.len() - i,
        {
            out.push(self.bindings[i].text());
            i += 1;
        }
        out
    }
}

} // verus!
