use vstd::prelude::*;

verus! {

/// A request-time evaluation failure.  Every failure carries enough context
/// (argument, component or expression detail) to diagnose it; nothing is
/// silently recovered.
#[derive(Debug)]
pub enum EvalError {
    /// A declared required argument was absent from the request.
    ArgumentMissing(String),
    /// The evaluation scope lacked its required `context` binding.
    ScopeMissingContext,
    /// A component tag named a component that the registry does not hold.
    ComponentNotFound(String),
    /// A resolved component was invoked and the invocation itself failed.
    Dispatch(String),
    /// An embedded expression failed to evaluate.
    Expression(String),
    /// Body text appeared before any role marker established a current role.
    NoRoleMarker,
}

/// The descriptive text of a failure, naming what failed.
pub open spec fn message_spec(e: EvalError) -> Seq<char> {
    match e {
        EvalError::ArgumentMissing(name) => "missing required argument: "@ + name@,
        EvalError::ScopeMissingContext => "'context' variable not found in scope"@,
        EvalError::ComponentNotFound(name) => "Component not found: Component '"@ + name@
            + "' not found"@,
        EvalError::Dispatch(detail) => "Failed to call component function: "@ + detail@,
        EvalError::Expression(detail) => "expression evaluation failed: "@ + detail@,
        EvalError::NoRoleMarker => "no role marker before message content"@,
    }
}

impl EvalError {
    /// The failure's descriptive text, exactly as `message_spec` states it.
    pub fn message(&self) -> (r: String)
        ensures
            r@ == message_spec(*self),
    {
        match self {
            EvalError::ArgumentMissing(name) => {
                let mut out = String::from_str("missing required argument: ");
                out.append(name.as_str());
                out
            },
            EvalError::ScopeMissingContext => {
                String::from_str("'context' variable not found in scope")
            },
            EvalError::ComponentNotFound(name) => {
                let mut out = String::from_str("Component not found: Component '");
                out.append(name.as_str());
                out.append("' not found");
                out
            },
            EvalError::Dispatch(detail) => {
                let mut out = String::from_str("Failed to call component function: ");
                out.append(detail.as_str());
                out
            },
            EvalError::Expression(detail) => {
                let mut out = String::from_str("expression evaluation failed: ");
                out.append(detail.as_str());
                out
            },
            EvalError::NoRoleMarker => {
                String::from_str("no role marker before message content")
            },
        }
    }
}

} // verus!
