use promptdoc::document::Block;
use promptdoc::document::DocumentTree;
use promptdoc::document::Inline;
use promptdoc::document::Role;
use promptdoc::document::evaluate_document;
use promptdoc::document::segment;
use promptdoc::document::trim_string;
use promptdoc::errors::EvalError;
use promptdoc::registry::ComponentRegistry;
use promptdoc::rhai_components::EvaluationScope;
use promptdoc::rhai_components::TagNode;
use promptdoc::rhai_components::new_rhai_template_renderer;
use promptdoc::value::DynamicValue;

fn marker_block(token: &str, rest: &str) -> Block {
    Block {
        inlines: vec![
            Inline::Bold(token.to_string()),
            Inline::Node(TagNode::Text(rest.to_string())),
        ],
    }
}

fn plain_block(text: &str) -> Block {
    Block { inlines: vec![Inline::Node(TagNode::Text(text.to_string()))] }
}

fn context_scope() -> EvaluationScope {
    EvaluationScope {
        bindings: vec![("context".to_string(), DynamicValue::Object(vec![]))],
    }
}

#[test]
fn role_segmentation_yields_three_messages_in_order() {
    let registry = ComponentRegistry::default();
    let renderer = new_rhai_template_renderer("").unwrap();
    let tree = DocumentTree {
        blocks: vec![
            marker_block("user", ": A"),
            marker_block("assistant", ": B"),
            marker_block("user", ": C"),
        ],
    };
    let messages = evaluate_document(&registry, &renderer, &tree, &context_scope()).unwrap();
    assert_eq!(messages.len(), 3);
    assert_eq!(messages[0].role, Role::User);
    assert_eq!(messages[0].content, "A".to_string());
    assert_eq!(messages[1].role, Role::Assistant);
    assert_eq!(messages[1].content, "B".to_string());
    assert_eq!(messages[2].role, Role::User);
    assert_eq!(messages[2].content, "C".to_string());
}

#[test]
fn markerless_blocks_join_the_pending_chunk() {
    let registry = ComponentRegistry::default();
    let renderer = new_rhai_template_renderer("").unwrap();
    let tree = DocumentTree {
        blocks: vec![
            marker_block("user", ": first"),
            plain_block("second"),
            marker_block("assistant", ": done"),
        ],
    };
    let messages = evaluate_document(&registry, &renderer, &tree, &context_scope()).unwrap();
    assert_eq!(messages.len(), 2);
    assert_eq!(messages[0].role, Role::User);
    assert_eq!(messages[0].content, "first\n\nsecond".to_string());
    assert_eq!(messages[1].role, Role::Assistant);
    assert_eq!(messages[1].content, "done".to_string());
}

#[test]
fn body_without_any_role_marker_is_an_error() {
    let registry = ComponentRegistry::default();
    let renderer = new_rhai_template_renderer("").unwrap();
    let tree = DocumentTree { blocks: vec![plain_block("orphan text")] };
    match evaluate_document(&registry, &renderer, &tree, &context_scope()) {
        Err(EvalError::NoRoleMarker) => {}
        other => panic!("expected a no-role failure, got {:?}", other.is_ok()),
    }
}

#[test]
fn empty_pending_chunks_are_not_emitted() {
    let pieces = vec![
        (Some(Role::User), "".to_string()),
        (Some(Role::Assistant), "hello".to_string()),
    ];
    let messages = segment(&pieces).unwrap();
    assert_eq!(messages.len(), 1);
    assert_eq!(messages[0].role, Role::Assistant);
    assert_eq!(messages[0].content, "hello".to_string());
}

#[test]
fn unrecognized_bold_token_is_not_a_marker() {
    let registry = ComponentRegistry::default();
    let renderer = new_rhai_template_renderer("").unwrap();
    let tree = DocumentTree {
        blocks: vec![
            marker_block("user", ": lead"),
            marker_block("narrator", ": aside"),
        ],
    };
    let messages = evaluate_document(&registry, &renderer, &tree, &context_scope()).unwrap();
    assert_eq!(messages.len(), 1);
    assert_eq!(messages[0].role, Role::User);
    assert_eq!(messages[0].content, "lead\n\n**narrator**: aside".to_string());
}

#[test]
fn block_text_is_trimmed_at_boundaries() {
    assert_eq!(trim_string("  hi there \n"), "hi there".to_string());
    assert_eq!(trim_string("\t\r\n "), "".to_string());
    assert_eq!(trim_string("solid"), "solid".to_string());
    assert_eq!(trim_string(""), "".to_string());
}
