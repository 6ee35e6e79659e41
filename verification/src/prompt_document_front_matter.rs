use vstd::prelude::*;

use crate::errors::EvalError;
use crate::rhai_components::str_eq;
use crate::value::DynamicValue;

verus! {

/// One declared argument of a document's argument schema.
#[derive(Debug)]
pub struct Argument {
    pub date: Option<String>,
    pub description: String,
    pub required: bool,
    pub title: String,
}

/// A prompt document's metadata: its description, title, and declared
/// argument schema in declaration order.
#[derive(Debug)]
pub struct PromptDocumentFrontMatter {
    pub description: String,
    pub title: String,
    pub arguments: Vec<(String, Argument)>,
}

/// The first value a raw-argument mapping holds under a name.
pub open spec fn raw_lookup(raw: Seq<(String, String)>, name: Seq<char>) -> Option<Seq<char>>
    decreases raw.len(),
{
    if raw.len() == 0 {
        None
    } else if raw[0].0@ == name {
        Some(raw[0].1@)
    } else {
        raw_lookup(raw.drop_first(), name)
    }
}

/// Whether a raw-argument mapping holds a value under a name.
pub open spec fn raw_contains(raw: Seq<(String, String)>, name: Seq<char>) -> bool {
    raw_lookup(raw, name) is Some
}

/// Whether the declared argument at an index is required but absent from the
/// raw arguments.
pub open spec fn missing_required_at(
    schema: Seq<(String, Argument)>,
    raw: Seq<(String, String)>,
    k: int,
) -> bool {
    schema[k].1.required && !raw_contains(raw, schema[k].0@)
}

/// Whether a binding is the structured wrapping of a raw string argument: an
/// object with a single `input` field holding the raw string.
pub open spec fn is_input_binding(v: DynamicValue, input: Seq<char>) -> bool {
    &&& v matches DynamicValue::Object(entries)
    &&& entries@.len() == 1
    &&& entries@[0].0@ == "input"@
    &&& entries@[0].1 matches DynamicValue::Text(t) && t@ == input
}

fn raw_contains_exec(raw: &Vec<(String, String)>, name: &str) -> (r: bool)
    ensures
        r == raw_contains(raw@, name@),
{
    let mut i: usize = 0;
    proof {
        assert(raw@.skip(0) =~= raw@);
    }
    while i < raw.len()
        invariant
            i <= raw@.len(),
            raw_lookup(raw@, name@) == raw_lookup(raw@.skip(i as int), name@),
        decreases raw@.len() - i,
    {
        proof {
            assert(raw@.skip(i as int)[0] == raw@[i as int]);
            assert(raw@.skip(i as int).drop_first() =~= raw@.skip(i as int + 1));
        }
        if str_eq(raw[i].0.as_str(), name) {
            return true;
        }
        i = i + 1;
    }
    false
}

impl PromptDocumentFrontMatter {
    /// Binds a request's raw string arguments against the declared schema.
    /// Fails, naming the argument, exactly when some declared required
    /// argument is absent from the raw arguments — an omitted optional
    /// argument never fails.  On success every raw argument, declared or not,
    /// is wrapped into a structured binding exposing the raw string under
    /// `input`, in the raw arguments' order.
    #[verifier::loop_isolation(false)]
    pub fn map_arguments(&self, raw: &Vec<(String, String)>) -> (r: Result<
        Vec<(String, DynamicValue)>,
        EvalError,
    >)
        ensures
            r is Ok <==> (forall|k: int|
                0 <= k < self.arguments@.len() ==> !missing_required_at(
                    self.arguments@,
                    raw@,
                    k,
                )),
            match r {
                Err(EvalError::ArgumentMissing(name)) => exists|k: int|
                    0 <= k < self.arguments@.len() && missing_required_at(
                        self.arguments@,
                        raw@,
                        k,
                    ) && (#[trigger] self.arguments@[k]).0@ == name@,
                Err(_) => false,
                Ok(bindings) => bindings@.len() == raw@.len() && forall|k: int|
                    0 <= k < raw@.len() ==> (#[trigger] bindings@[k]).0@ == raw@[k].0@
                        && is_input_binding(bindings@[k].1, raw@[k].1@),
            },
    {
        let mut j: usize = 0;
        while j < self.arguments.len()
            invariant
                j <= self.arguments@.len(),
                forall|k: int| 0 <= k < j ==> !missing_required_at(self.arguments@, raw@, k),
            decreases self.arguments@.len() - j,
        {
            if self.arguments[j].1.required && !raw_contains_exec(raw, self.arguments[j].0.as_str())
            {
                proof {
                    assert(missing_required_at(self.arguments@, raw@, j as int));
                    assert((self.arguments@[j as int]).0@ == self.arguments@[j as int].0@);
                }
                return Err(EvalError::ArgumentMissing(self.arguments[j].0.clone()));
            }
            j = j + 1;
        }
        let mut bindings: Vec<(String, DynamicValue)> = Vec::new();
        let mut i: usize = 0;
        while i < raw.len()
            invariant
                i <= raw@.len(),
                bindings@.len() == i as int,
                forall|k: int|
                    0 <= k < i ==> (#[trigger] bindings@[k]).0@ == raw@[k].0@ && is_input_binding(
                        bindings@[k].1,
                        raw@[k].1@,
                    ),
            decreases raw@.len() - i,
        {
            let wrapped = DynamicValue::Object(
                vec![(String::from_str("input"), DynamicValue::Text(raw[i].1.clone()))],
            );
            proof {
                reveal_strlit("input");
            }
            bindings.push((raw[i].0.clone(), wrapped));
            i = i + 1;
        }
        Ok(bindings)
    }
}

} // verus!
