use vstd::prelude::*;

use rayon::iter::IntoParallelIterator;
use rayon::iter::ParallelIterator;

use crate::controller::PromptDocumentController;
use crate::document::DocumentTree;
use crate::prompt_document_front_matter::PromptDocumentFrontMatter;
use crate::rhai_components::str_eq;

verus! {

/// A candidate document's parse output: its metadata and parsed body, as the
/// outside parser yields them.
#[derive(Debug)]
pub struct ParsedDocument {
    pub front_matter: PromptDocumentFrontMatter,
    pub document: DocumentTree,
}

/// A candidate document for a build pass: its registered name, and either its
/// parse output or the text of its metadata/parse failure.
#[derive(Debug)]
pub struct DocumentSource {
    pub name: String,
    pub parsed: Result<ParsedDocument, String>,
}

/// The outcome of compiling one candidate: a controller, or the candidate's
/// name with its failure text.
#[derive(Debug)]
pub enum CompileOutcome {
    Built(PromptDocumentController),
    Failed(String, String),
}

/// What compiling a candidate yields: a controller packaging its name,
/// metadata and body when it parsed, and its name with the failure text when
/// it did not.
pub open spec fn spec_compile(source: DocumentSource) -> CompileOutcome {
    match source.parsed {
        Ok(parsed) => CompileOutcome::Built(
            PromptDocumentController {
                front_matter: parsed.front_matter,
                name: source.name,
                document: parsed.document,
            },
        ),
        Err(message) => CompileOutcome::Failed(source.name, message),
    }
}

/// The outcomes of compiling every candidate, in candidate order.
pub open spec fn compile_outcomes(sources: Seq<DocumentSource>) -> Seq<CompileOutcome> {
    sources.map_values(|s: DocumentSource| spec_compile(s))
}

/// The (name, failure) pairs among a run of outcomes, in order.
pub open spec fn failed_from(outcomes: Seq<CompileOutcome>) -> Seq<(String, String)>
    decreases outcomes.len(),
{
    if outcomes.len() == 0 {
        Seq::empty()
    } else {
        let rest = failed_from(outcomes.drop_first());
        match outcomes[0] {
            CompileOutcome::Failed(name, message) => seq![(name, message)] + rest,
            CompileOutcome::Built(_) => rest,
        }
    }
}

/// The controllers among a run of outcomes, in order.
pub open spec fn built_from(outcomes: Seq<CompileOutcome>) -> Seq<PromptDocumentController>
    decreases outcomes.len(),
{
    if outcomes.len() == 0 {
        Seq::empty()
    } else {
        let rest = built_from(outcomes.drop_first());
        match outcomes[0] {
            CompileOutcome::Built(controller) => seq![controller] + rest,
            CompileOutcome::Failed(_, _) => rest,
        }
    }
}

proof fn lemma_failed_from_push(outcomes: Seq<CompileOutcome>, outcome: CompileOutcome)
    ensures
        failed_from(outcomes.push(outcome)) == match outcome {
            CompileOutcome::Failed(name, message) => failed_from(outcomes).push((name, message)),
            CompileOutcome::Built(_) => failed_from(outcomes),
        },
    decreases outcomes.len(),
{
    if outcomes.len() == 0 {
        assert(outcomes.push(outcome).drop_first() =~= Seq::<CompileOutcome>::empty());
        assert(outcomes.push(outcome)[0] == outcome);
        assert(failed_from(Seq::<CompileOutcome>::empty()) == Seq::<(String, String)>::empty());
        match outcome {
            CompileOutcome::Failed(name, message) => {
                assert(seq![(name, message)] + failed_from(Seq::<CompileOutcome>::empty())
                    =~= failed_from(outcomes).push((name, message)));
            },
            CompileOutcome::Built(_) => {
                assert(failed_from(outcomes.push(outcome)) =~= failed_from(outcomes));
            },
        }
    } else {
        lemma_failed_from_push(outcomes.drop_first(), outcome);
        assert(outcomes.push(outcome).drop_first() =~= outcomes.drop_first().push(outcome));
        assert(outcomes.push(outcome)[0] == outcomes[0]);
        match outcomes[0] {
            CompileOutcome::Failed(name, message) => {
                match outcome {
                    CompileOutcome::Failed(n2, m2) => {
                        assert(seq![(name, message)] + failed_from(outcomes.drop_first()).push(
                            (n2, m2),
                        ) =~= (seq![(name, message)] + failed_from(outcomes.drop_first())).push(
                            (n2, m2),
                        ));
                    },
                    CompileOutcome::Built(_) => {},
                }
            },
            CompileOutcome::Built(_) => {},
        }
    }
}

proof fn lemma_built_from_push(outcomes: Seq<CompileOutcome>, outcome: CompileOutcome)
    ensures
        built_from(outcomes.push(outcome)) == match outcome {
            CompileOutcome::Built(controller) => built_from(outcomes).push(controller),
            CompileOutcome::Failed(_, _) => built_from(outcomes),
        },
    decreases outcomes.len(),
{
    if outcomes.len() == 0 {
        assert(outcomes.push(outcome).drop_first() =~= Seq::<CompileOutcome>::empty());
        assert(outcomes.push(outcome)[0] == outcome);
        assert(built_from(Seq::<CompileOutcome>::empty())
            == Seq::<PromptDocumentController>::empty());
        match outcome {
            CompileOutcome::Built(controller) => {
                assert(seq![controller] + built_from(Seq::<CompileOutcome>::empty())
                    =~= built_from(outcomes).push(controller));
            },
            CompileOutcome::Failed(_, _) => {
                assert(built_from(outcomes.push(outcome)) =~= built_from(outcomes));
            },
        }
    } else {
        lemma_built_from_push(outcomes.drop_first(), outcome);
        assert(outcomes.push(outcome).drop_first() =~= outcomes.drop_first().push(outcome));
        assert(outcomes.push(outcome)[0] == outcomes[0]);
        match outcomes[0] {
            CompileOutcome::Built(controller) => {
                match outcome {
                    CompileOutcome::Built(c2) => {
                        assert(seq![controller] + built_from(outcomes.drop_first()).push(c2)
                            =~= (seq![controller] + built_from(outcomes.drop_first())).push(c2));
                    },
                    CompileOutcome::Failed(_, _) => {},
                }
            },
            CompileOutcome::Failed(_, _) => {},
        }
    }
}

/// Compiles one candidate, exactly as `spec_compile` states it.
pub fn compile_document_source(source: DocumentSource) -> (r: CompileOutcome)
    ensures
        r == spec_compile(source),
{
    match source.parsed {
        Ok(parsed) => CompileOutcome::Built(
            PromptDocumentController {
                front_matter: parsed.front_matter,
                name: source.name,
                document: parsed.document,
            },
        ),
        Err(message) => CompileOutcome::Failed(source.name, message),
    }
}

/// Relies on rayon's into_par_iter, map and collect on a vector: every
/// candidate is compiled on the worker pool, no candidate's failure stops the
/// others, and the collected vector keeps the input order, holding at each
/// position exactly the outcome of compiling the candidate at that position.
#[verifier::external_body]
fn compile_all_parallel(sources: Vec<DocumentSource>) -> (r: Vec<CompileOutcome>)
    ensures
        r@.len() == sources@.len(),
        forall|k: int| 0 <= k < sources@.len() ==> r@[k] == spec_compile(sources@[k]),
{
    sources.into_par_iter().map(compile_document_source).collect()
}

/// The failure report: each collected document name with its failure text,
/// one per line.
pub open spec fn error_report(errors: Seq<(String, String)>) -> Seq<char>
    decreases errors.len(),
{
    if errors.len() == 0 {
        Seq::empty()
    } else {
        errors[0].0@ + ": "@ + errors[0].1@ + "\n"@ + error_report(errors.drop_first())
    }
}

proof fn lemma_error_report_push(errors: Seq<(String, String)>, name: String, message: String)
    ensures
        error_report(errors.push((name, message))) == error_report(errors) + (name@ + ": "@
            + message@ + "\n"@),
    decreases errors.len(),
{
    if errors.len() == 0 {
        assert(errors.push((name, message)).drop_first() =~= Seq::<(String, String)>::empty());
        assert(errors.push((name, message))[0] == (name, message));
        assert(error_report(Seq::<(String, String)>::empty()) == Seq::<char>::empty());
        assert(error_report(errors.push((name, message))) =~= error_report(errors) + (name@ + ": "@
            + message@ + "\n"@));
    } else {
        lemma_error_report_push(errors.drop_first(), name, message);
        assert(errors.push((name, message)).drop_first() =~= errors.drop_first().push(
            (name, message),
        ));
        assert(errors.push((name, message))[0] == errors[0]);
        assert(error_report(errors.push((name, message))) =~= error_report(errors) + (name@ + ": "@
            + message@ + "\n"@));
    }
}

/// The per-document failures a build pass collected, keyed by document name.
/// Appended to while candidates compile; a build with a non-empty collection
/// never yields a usable controller collection.
#[derive(Debug)]
pub struct DocumentErrorCollection {
    pub errors: Vec<(String, String)>,
}

impl DocumentErrorCollection {
    /// Whether no failure was collected.
    pub fn is_empty(&self) -> (r: bool)
        ensures
            r == (self.errors@.len() == 0),
    {
        self.errors.len() == 0
    }

    /// Records one document's failure.
    pub fn register_error(&mut self, name: String, message: String)
        ensures
            final(self).errors@ == old(self).errors@.push((name, message)),
    {
        self.errors.push((name, message));
    }

    /// Renders every collected document-name/failure pair, one per line.
    #[verifier::loop_isolation(false)]
    pub fn render_report(&self) -> (r: String)
        ensures
            r@ == error_report(self.errors@),
    {
        let mut out = String::new();
        proof {
            assert(self.errors@.take(0) =~= Seq::<(String, String)>::empty());
        }
        let mut j: usize = 0;
        while j < self.errors.len()
            invariant
                j <= self.errors@.len(),
                out@ == error_report(self.errors@.take(j as int)),
            decreases self.errors@.len() - j,
        {
            out.append(self.errors[j].0.as_str());
            out.append(": ");
            out.append(self.errors[j].1.as_str());
            out.append("\n");
            proof {
                lemma_error_report_push(
                    self.errors@.take(j as int),
                    self.errors@[j as int].0,
                    self.errors@[j as int].1,
                );
                assert(self.errors@.take(j as int).push(self.errors@[j as int])
                    =~= self.errors@.take(j as int + 1));
            }
            j = j + 1;
        }
        proof {
            assert(self.errors@.take(self.errors@.len() as int) =~= self.errors@);
        }
        out
    }
}

/// The controller a collection holds under a name: the first with that name.
pub open spec fn collection_find(
    controllers: Seq<PromptDocumentController>,
    name: Seq<char>,
) -> Option<PromptDocumentController>
    decreases controllers.len(),
{
    if controllers.len() == 0 {
        None
    } else if controllers[0].name@ == name {
        Some(controllers[0])
    } else {
        collection_find(controllers.drop_first(), name)
    }
}

/// The completed, name-keyed controller collection of a successful build
/// pass: read concurrently afterwards, never mutated.
#[derive(Debug)]
pub struct PromptControllerCollection {
    pub controllers: Vec<PromptDocumentController>,
}

impl PromptControllerCollection {
    /// Looks a document's controller up by name.
    pub fn get(&self, name: &str) -> (r: Option<&PromptDocumentController>)
        ensures
            match r {
                Some(c) => collection_find(self.controllers@, name@) == Some(*c),
                None => collection_find(self.controllers@, name@) is None,
            },
    {
        let mut i: usize = 0;
        proof {
            assert(self.controllers@.skip(0) =~= self.controllers@);
        }
        while i < self.controllers.len()
            invariant
                i <= self.controllers@.len(),
                collection_find(self.controllers@, name@) == collection_find(
                    self.controllers@.skip(i as int),
                    name@,
                ),
            decreases self.controllers@.len() - i,
        {
            proof {
                assert(self.controllers@.skip(i as int)[0] == self.controllers@[i as int]);
                assert(self.controllers@.skip(i as int).drop_first() =~= self.controllers@.skip(
                    i as int + 1,
                ));
            }
            if str_eq(self.controllers[i].name.as_str(), name) {
                return Some(&self.controllers[i]);
            }
            i = i + 1;
        }
        None
    }
}

/// Compiles every candidate document independently and in parallel into a
/// prompt controller.  A candidate's failure is collected under its name and
/// stops no other candidate; the build yields the complete collection, in
/// candidate order, exactly when no candidate failed, and otherwise the full
/// failure collection.
#[verifier::loop_isolation(false)]
pub fn build_prompt_controller_collection(sources: Vec<DocumentSource>) -> (r: Result<
    PromptControllerCollection,
    DocumentErrorCollection,
>)
    ensures
        r is Ok <==> failed_from(compile_outcomes(sources@)).len() == 0,
        r matches Ok(collection) ==> collection.controllers@ == built_from(
            compile_outcomes(sources@),
        ),
        r matches Err(failures) ==> failures.errors@ == failed_from(compile_outcomes(sources@))
            && failures.errors@.len() > 0,
{
    let ghost srcs = sources@;
    let mut outcomes = compile_all_parallel(sources);
    proof {
        assert(outcomes@ =~= compile_outcomes(srcs));
    }
    let mut controllers: Vec<PromptDocumentController> = Vec::new();
    let mut failures = DocumentErrorCollection { errors: Vec::new() };
    let ghost mut processed: Seq<CompileOutcome> = Seq::empty();
    proof {
        assert(processed + outcomes@ =~= compile_outcomes(srcs));
        assert(controllers@ =~= built_from(processed));
        assert(failures.errors@ =~= failed_from(processed));
    }
    while outcomes.len() > 0
        invariant
            processed + outcomes@ == compile_outcomes(srcs),
            controllers@ == built_from(processed),
            failures.errors@ == failed_from(processed),
        decreases outcomes@.len(),
    {
        let ghost old_outcomes = outcomes@;
        let outcome = outcomes.remove(0);
        proof {
            assert(old_outcomes[0] == outcome);
            assert(outcomes@ =~= old_outcomes.drop_first());
        }
        match outcome {
            CompileOutcome::Built(controller) => {
                proof {
                    lemma_built_from_push(processed, CompileOutcome::Built(controller));
                    lemma_failed_from_push(processed, CompileOutcome::Built(controller));
                }
                controllers.push(controller);
            },
            CompileOutcome::Failed(name, message) => {
                proof {
                    lemma_built_from_push(processed, CompileOutcome::Failed(name, message));
                    lemma_failed_from_push(processed, CompileOutcome::Failed(name, message));
                }
                failures.register_error(name, message);
            },
        }
        proof {
            processed = processed.push(old_outcomes[0]);
            assert(processed + outcomes@ =~= compile_outcomes(srcs));
        }
    }
    proof {
        assert(processed =~= compile_outcomes(srcs));
    }
    if failures.is_empty() {
        Ok(PromptControllerCollection { controllers })
    } else {
        Err(failures)
    }
}

/// Law: when every candidate parses, a build pass collects no failure.
pub proof fn lemma_all_ok_no_failures(sources: Seq<DocumentSource>)
    requires
        forall|k: int| 0 <= k < sources.len() ==> (#[trigger] sources[k]).parsed is Ok,
    ensures
        failed_from(compile_outcomes(sources)).len() == 0,
    decreases sources.len(),
{
    if sources.len() > 0 {
        assert(compile_outcomes(sources)[0] == spec_compile(sources[0]));
        assert(spec_compile(sources[0]) is Built);
        assert(compile_outcomes(sources).drop_first() =~= compile_outcomes(sources.drop_first()));
        lemma_all_ok_no_failures(sources.drop_first());
    }
}

/// Law: per-document failure is isolated.  When exactly one candidate's parse
/// fails, the build's failure collection — whatever order the candidates
/// compiled in — names exactly that one document, with its own failure text,
/// and no other.
pub proof fn lemma_builder_isolation(sources: Seq<DocumentSource>, i: int)
    requires
        0 <= i < sources.len(),
        sources[i].parsed is Err,
        forall|k: int|
            0 <= k < sources.len() && k != i ==> (#[trigger] sources[k]).parsed is Ok,
    ensures
        failed_from(compile_outcomes(sources)).len() == 1,
        failed_from(compile_outcomes(sources))[0].0 == sources[i].name,
        failed_from(compile_outcomes(sources))[0].1 == sources[i].parsed->Err_0,
    decreases sources.len(),
{
    assert(compile_outcomes(sources)[0] == spec_compile(sources[0]));
    assert(compile_outcomes(sources).drop_first() =~= compile_outcomes(sources.drop_first()));
    if i == 0 {
        lemma_all_ok_no_failures(sources.drop_first());
        let message = sources[0].parsed->Err_0;
        assert(failed_from(compile_outcomes(sources)) =~= seq![(sources[0].name, message)]);
    } else {
        assert(sources[0].parsed is Ok);
        assert(sources.drop_first()[i - 1] == sources[i]);
        lemma_builder_isolation(sources.drop_first(), i - 1);
    }
}

} // verus!
