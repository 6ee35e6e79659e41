use promptdoc::builder::DocumentSource;
use promptdoc::builder::ParsedDocument;
use promptdoc::builder::build_prompt_controller_collection;
use promptdoc::document::Block;
use promptdoc::document::DocumentTree;
use promptdoc::document::Inline;
use promptdoc::front_matter::FrontMatter;
use promptdoc::front_matter::default_render;
use promptdoc::prompt_document_front_matter::PromptDocumentFrontMatter;
use promptdoc::rhai_components::TagNode;

fn parsed_document(title: &str) -> ParsedDocument {
    ParsedDocument {
        front_matter: PromptDocumentFrontMatter {
            description: format!("{} description", title),
            title: title.to_string(),
            arguments: vec![],
        },
        document: DocumentTree {
            blocks: vec![Block {
                inlines: vec![
                    Inline::Bold("user".to_string()),
                    Inline::Node(TagNode::Text(": hello".to_string())),
                ],
            }],
        },
    }
}

fn good_source(name: &str) -> DocumentSource {
    DocumentSource { name: name.to_string(), parsed: Ok(parsed_document(name)) }
}

#[test]
fn build_with_no_failures_yields_the_full_collection() {
    let sources = vec![good_source("alpha"), good_source("beta"), good_source("gamma")];
    let collection = build_prompt_controller_collection(sources).unwrap();
    assert_eq!(collection.controllers.len(), 3);
    assert_eq!(collection.controllers[0].name, "alpha".to_string());
    assert_eq!(collection.controllers[1].name, "beta".to_string());
    assert_eq!(collection.controllers[2].name, "gamma".to_string());
    let found = collection.get("beta").unwrap();
    assert_eq!(found.front_matter.title, "beta".to_string());
    assert!(collection.get("delta").is_none());
}

#[test]
fn one_bad_document_fails_the_build_naming_only_it() {
    let sources = vec![
        good_source("alpha"),
        DocumentSource {
            name: "broken".to_string(),
            parsed: Err("unknown front-matter field".to_string()),
        },
        good_source("gamma"),
    ];
    let failures = build_prompt_controller_collection(sources).unwrap_err();
    assert_eq!(failures.errors.len(), 1);
    assert_eq!(failures.errors[0].0, "broken".to_string());
    assert_eq!(failures.errors[0].1, "unknown front-matter field".to_string());
    assert!(!failures.is_empty());
    assert_eq!(failures.render_report(), "broken: unknown front-matter field\n".to_string());
}

#[test]
fn every_failure_is_collected() {
    let sources = vec![
        DocumentSource { name: "one".to_string(), parsed: Err("first".to_string()) },
        good_source("alpha"),
        DocumentSource { name: "two".to_string(), parsed: Err("second".to_string()) },
    ];
    let failures = build_prompt_controller_collection(sources).unwrap_err();
    assert_eq!(failures.errors.len(), 2);
    assert_eq!(failures.errors[0].0, "one".to_string());
    assert_eq!(failures.errors[1].0, "two".to_string());
}

#[test]
fn empty_corpus_builds_an_empty_collection() {
    let collection = build_prompt_controller_collection(vec![]).unwrap();
    assert_eq!(collection.controllers.len(), 0);
}

#[test]
fn page_front_matter_defaults() {
    assert!(default_render());
    let mock = FrontMatter::mock("About");
    assert_eq!(mock.title, "About".to_string());
    assert_eq!(mock.layout, "SomeLayout".to_string());
    assert_eq!(mock.description, "".to_string());
    assert!(mock.render);
    assert!(mock.id.is_none());
    assert!(mock.primary_collection.is_none());
    assert!(mock.collections.is_empty());
    assert!(mock.props.is_empty());
}
