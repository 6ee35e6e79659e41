use vstd::prelude::*;

use crate::document::DocumentTree;
use crate::document::PromptMessage;
use crate::document::Role;
use crate::document::blocks_render;
use crate::document::document_is_literal;
use crate::document::evaluate_document;
use crate::document::messages_view;
use crate::document::spec_segment;
use crate::errors::EvalError;
use crate::prompt_document_front_matter::Argument;
use crate::prompt_document_front_matter::PromptDocumentFrontMatter;
use crate::prompt_document_front_matter::missing_required_at;
use crate::registry::ComponentRegistry;
use crate::rhai_components::EvaluationScope;
use crate::rhai_components::RhaiTemplateRenderer;
use crate::value::DynamicValue;

verus! {

/// One declared argument, as the protocol layer lists it.
pub struct PromptArgument {
    pub date: Option<String>,
    pub description: String,
    pub name: String,
    pub required: bool,
    pub title: String,
}

/// A document's protocol-facing description: its name, title, description and
/// declared arguments, with no content evaluated.
pub struct Prompt {
    pub arguments: Vec<PromptArgument>,
    pub description: String,
    pub name: String,
    pub title: String,
}

/// A successful response: the document's description and its evaluated,
/// ordered message sequence.
pub struct PromptsGetResult {
    pub description: Option<String>,
    pub messages: Vec<PromptMessage>,
}

/// Whether a listed argument is the faithful projection of a declared one.
pub open spec fn argument_projects(listed: PromptArgument, declared: (String, Argument)) -> bool {
    &&& listed.name@ == declared.0@
    &&& listed.description@ == declared.1.description@
    &&& listed.required == declared.1.required
    &&& listed.title@ == declared.1.title@
    &&& match (listed.date, declared.1.date) {
        (Some(a), Some(b)) => a@ == b@,
        (None, None) => true,
        _ => false,
    }
}

/// The per-document façade: the document's name, metadata and parsed body,
/// shared immutably by all requests against it.
#[derive(Debug)]
pub struct PromptDocumentController {
    pub front_matter: PromptDocumentFrontMatter,
    pub name: String,
    pub document: DocumentTree,
}

impl PromptDocumentController {
    /// The document's protocol metadata: a pure projection of its name and
    /// front matter, evaluating nothing.
    #[verifier::loop_isolation(false)]
    pub fn get_mcp_prompt(&self) -> (r: Prompt)
        ensures
            r.name@ == self.name@,
            r.description@ == self.front_matter.description@,
            r.title@ == self.front_matter.title@,
            r.arguments@.len() == self.front_matter.arguments@.len(),
            forall|k: int|
                0 <= k < self.front_matter.arguments@.len() ==> argument_projects(
                    #[trigger] r.arguments@[k],
                    self.front_matter.arguments@[k],
                ),
    {
        let mut listed: Vec<PromptArgument> = Vec::new();
        let mut j: usize = 0;
        while j < self.front_matter.arguments.len()
            invariant
                j <= self.front_matter.arguments@.len(),
                listed@.len() == j as int,
                forall|k: int|
                    0 <= k < j ==> argument_projects(
                        #[trigger] listed@[k],
                        self.front_matter.arguments@[k],
                    ),
            decreases self.front_matter.arguments@.len() - j,
        {
            let declared = &self.front_matter.arguments[j];
            let date = match &declared.1.date {
                Some(d) => Some(d.clone()),
                None => None,
            };
            listed.push(
                PromptArgument {
                    date,
                    description: declared.1.description.clone(),
                    name: declared.0.clone(),
                    required: declared.1.required,
                    title: declared.1.title.clone(),
                },
            );
            j = j + 1;
        }
        Prompt {
            arguments: listed,
            description: self.front_matter.description.clone(),
            name: self.name.clone(),
            title: self.front_matter.title.clone(),
        }
    }

    /// Answers a request: binds the raw arguments against the declared
    /// schema, seeds a fresh evaluation scope whose `context` binding holds
    /// the bound arguments with the document's description and title, walks
    /// the document, and packages the description with the evaluated
    /// messages.  Fails with an argument error, naming a missing argument,
    /// exactly when a declared required argument is absent from the request;
    /// any later failure surfaces as the evaluation's own error, and no
    /// partial message list is ever returned.  The scope carries plain values
    /// only: opaque per-request services such as asset resolution or
    /// cross-document linking lie outside the closed value shapes and are not
    /// seeded, so a component script that reads them fails at dispatch.
    pub fn respond_to(
        &self,
        component_registry: &ComponentRegistry,
        renderer: &RhaiTemplateRenderer,
        arguments: &Vec<(String, String)>,
    ) -> (r: Result<PromptsGetResult, EvalError>)
        ensures
            (exists|k: int|
                0 <= k < self.front_matter.arguments@.len() && missing_required_at(
                    self.front_matter.arguments@,
                    arguments@,
                    k,
                )) <==> (r matches Err(e) && e is ArgumentMissing),
            match r {
                Err(EvalError::ArgumentMissing(name)) => exists|k: int|
                    0 <= k < self.front_matter.arguments@.len() && missing_required_at(
                        self.front_matter.arguments@,
                        arguments@,
                        k,
                    ) && (#[trigger] self.front_matter.arguments@[k]).0@ == name@,
                _ => true,
            },
            r matches Ok(result) ==> (result.description matches Some(d) && d@
                == self.front_matter.description@ && exists|pieces: Seq<(Option<Role>, Seq<char>)>|
                blocks_render(self.document.blocks@, pieces) && spec_segment(
                    pieces,
                    None,
                    Seq::empty(),
                    Seq::empty(),
                ) == Ok::<_, EvalError>(messages_view(result.messages@))),
            (document_is_literal(self.document.blocks@) && (forall|k: int|
                0 <= k < self.front_matter.arguments@.len() ==> !missing_required_at(
                    self.front_matter.arguments@,
                    arguments@,
                    k,
                )) && (exists|pieces: Seq<(Option<Role>, Seq<char>)>|
                blocks_render(self.document.blocks@, pieces) && spec_segment(
                    pieces,
                    None,
                    Seq::empty(),
                    Seq::empty(),
                ) is Ok)) ==> r is Ok,
            document_is_literal(self.document.blocks@) ==> match r {
                Ok(_) => true,
                Err(e) => e is ArgumentMissing || (e == EvalError::NoRoleMarker && exists|
                    pieces: Seq<(Option<Role>, Seq<char>)>,
                |
                    blocks_render(self.document.blocks@, pieces) && spec_segment(
                        pieces,
                        None,
                        Seq::empty(),
                        Seq::empty(),
                    ) == Err::<Seq<(Role, Seq<char>)>, EvalError>(EvalError::NoRoleMarker)),
            },
    {
        let bindings = match self.front_matter.map_arguments(arguments) {
            Ok(bindings) => bindings,
            Err(error) => {
                return Err(error);
            },
        };
        let context_value = DynamicValue::Object(
            vec![
                (String::from_str("arguments"), DynamicValue::Object(bindings)),
                (
                    String::from_str("description"),
                    DynamicValue::Text(self.front_matter.description.clone()),
                ),
                (String::from_str("title"), DynamicValue::Text(self.front_matter.title.clone())),
            ],
        );
        let scope = EvaluationScope {
            bindings: vec![(String::from_str("context"), context_value)],
        };
        let messages = match evaluate_document(component_registry, renderer, &self.document, &scope)
        {
            Ok(messages) => messages,
            Err(error) => {
                return Err(error);
            },
        };
        Ok(
            PromptsGetResult {
                description: Some(self.front_matter.description.clone()),
                messages,
            },
        )
    }
}

} // verus!
