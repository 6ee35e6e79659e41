use promptdoc::controller::PromptDocumentController;
use promptdoc::document::Block;
use promptdoc::document::DocumentTree;
use promptdoc::document::Inline;
use promptdoc::document::Role;
use promptdoc::errors::EvalError;
use promptdoc::prompt_document_front_matter::Argument;
use promptdoc::prompt_document_front_matter::PromptDocumentFrontMatter;
use promptdoc::registry::ComponentRegistry;
use promptdoc::rhai_components::TagNode;
use promptdoc::rhai_components::new_rhai_template_renderer;

fn marker_block(token: &str, rest: &str) -> Block {
    Block {
        inlines: vec![
            Inline::Bold(token.to_string()),
            Inline::Node(TagNode::Text(rest.to_string())),
        ],
    }
}

fn help_me_finish_task_controller() -> PromptDocumentController {
    let front_matter = PromptDocumentFrontMatter {
        description: "test prompt description".to_string(),
        title: "Help me with finishing the task".to_string(),
        arguments: vec![(
            "objective".to_string(),
            Argument {
                date: None,
                description: "Describe what you are trying to do".to_string(),
                required: true,
                title: "Your objective".to_string(),
            },
        )],
    };
    let document = DocumentTree {
        blocks: vec![
            Block {
                inlines: vec![
                    Inline::Bold("user".to_string()),
                    Inline::Node(TagNode::Text(": This is what I am trying to do: ".to_string())),
                    Inline::Node(TagNode::BodyExpression(
                        "context.arguments.objective.input".to_string(),
                    )),
                ],
            },
            marker_block("assistant", ": wow"),
            marker_block("user", ": yeah"),
        ],
    };
    PromptDocumentController {
        front_matter,
        name: "help-me-finish-task".to_string(),
        document,
    }
}

#[test]
fn test_convert_to_prompt_messages() {
    let controller = help_me_finish_task_controller();
    let registry = ComponentRegistry::default();
    let renderer = new_rhai_template_renderer("").unwrap();
    let arguments = vec![("objective".to_string(), "ride a horse".to_string())];

    let response = controller.respond_to(&registry, &renderer, &arguments).unwrap();

    assert_eq!(response.description, Some("test prompt description".to_string()));
    assert_eq!(response.messages.len(), 3);

    let message_0 = response.messages.first().unwrap();
    assert_eq!(message_0.role, Role::User);
    assert_eq!(message_0.content, "This is what I am trying to do: ride a horse".to_string());

    let message_1 = response.messages.get(1).unwrap();
    assert_eq!(message_1.role, Role::Assistant);
    assert_eq!(message_1.content, "wow".to_string());

    let message_2 = response.messages.get(2).unwrap();
    assert_eq!(message_2.role, Role::User);
    assert_eq!(message_2.content, "yeah".to_string());
}

#[test]
fn missing_required_argument_fails_naming_it() {
    let controller = help_me_finish_task_controller();
    let registry = ComponentRegistry::default();
    let renderer = new_rhai_template_renderer("").unwrap();
    let arguments: Vec<(String, String)> = vec![];

    match controller.respond_to(&registry, &renderer, &arguments) {
        Err(error) => {
            assert_eq!(error.message(), "missing required argument: objective".to_string());
            match error {
                EvalError::ArgumentMissing(name) => assert_eq!(name, "objective".to_string()),
                other => panic!("expected a missing-argument failure, got {:?}", other),
            }
        }
        Ok(_) => panic!("expected a missing-argument failure"),
    }
}

#[test]
fn omitted_optional_argument_does_not_fail() {
    let mut controller = help_me_finish_task_controller();
    controller.front_matter.arguments.push((
        "style".to_string(),
        Argument {
            date: None,
            description: "Optional tone".to_string(),
            required: false,
            title: "Style".to_string(),
        },
    ));
    let registry = ComponentRegistry::default();
    let renderer = new_rhai_template_renderer("").unwrap();
    let arguments = vec![("objective".to_string(), "ride a horse".to_string())];

    let response = controller.respond_to(&registry, &renderer, &arguments).unwrap();
    assert_eq!(response.messages.len(), 3);
}

#[test]
fn unknown_extra_arguments_are_accepted() {
    let controller = help_me_finish_task_controller();
    let registry = ComponentRegistry::default();
    let renderer = new_rhai_template_renderer("").unwrap();
    let arguments = vec![
        ("objective".to_string(), "ride a horse".to_string()),
        ("unexpected".to_string(), "ignored".to_string()),
    ];

    let response = controller.respond_to(&registry, &renderer, &arguments).unwrap();
    assert_eq!(response.messages.len(), 3);
}

#[test]
fn repeated_requests_yield_identical_messages() {
    let controller = help_me_finish_task_controller();
    let registry = ComponentRegistry::default();
    let renderer = new_rhai_template_renderer("").unwrap();
    let arguments = vec![("objective".to_string(), "ride a horse".to_string())];

    let first = controller.respond_to(&registry, &renderer, &arguments).unwrap();
    let second = controller.respond_to(&registry, &renderer, &arguments).unwrap();

    assert_eq!(first.description, second.description);
    assert_eq!(first.messages.len(), second.messages.len());
    for (a, b) in first.messages.iter().zip(second.messages.iter()) {
        assert_eq!(a.role, b.role);
        assert_eq!(a.content, b.content);
    }
}

#[test]
fn describe_projects_metadata_without_evaluating() {
    let controller = help_me_finish_task_controller();
    let prompt = controller.get_mcp_prompt();
    assert_eq!(prompt.name, "help-me-finish-task".to_string());
    assert_eq!(prompt.title, "Help me with finishing the task".to_string());
    assert_eq!(prompt.description, "test prompt description".to_string());
    assert_eq!(prompt.arguments.len(), 1);
    assert_eq!(prompt.arguments[0].name, "objective".to_string());
    assert!(prompt.arguments[0].required);
    assert_eq!(prompt.arguments[0].title, "Your objective".to_string());
}
