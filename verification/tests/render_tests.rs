use promptdoc::errors::EvalError;
use promptdoc::registry::ComponentReference;
use promptdoc::registry::ComponentRegistry;
use promptdoc::rhai_components::Attribute;
use promptdoc::rhai_components::AttributeValue;
use promptdoc::rhai_components::EvaluationScope;
use promptdoc::rhai_components::TagHeader;
use promptdoc::rhai_components::TagNode;
use promptdoc::rhai_components::bind_attribute_value;
use promptdoc::rhai_components::eval_tag_stack_node;
use promptdoc::rhai_components::new_rhai_template_renderer;
use promptdoc::value::DynamicValue;
use promptdoc::value::string_form;

fn empty_context_scope() -> EvaluationScope {
    EvaluationScope {
        bindings: vec![("context".to_string(), DynamicValue::Object(vec![]))],
    }
}

fn literal_header(name: &str, attributes: Vec<Attribute>) -> Option<TagHeader> {
    Some(TagHeader {
        name: name.to_string(),
        is_component: false,
        attributes,
    })
}

#[test]
fn body_expression_sequence_flattens_without_separator() {
    let registry = ComponentRegistry::default();
    let renderer = new_rhai_template_renderer("").unwrap();
    let scope = empty_context_scope();
    let node = TagNode::BodyExpression("[1, 2, \"x\"]".to_string());
    let rendered = eval_tag_stack_node(&registry, &renderer, &node, &scope).unwrap();
    assert_eq!(rendered, "12x".to_string());
}

#[test]
fn body_expression_scalar_uses_string_form() {
    let registry = ComponentRegistry::default();
    let renderer = new_rhai_template_renderer("").unwrap();
    let scope = empty_context_scope();
    let node = TagNode::BodyExpression("40 + 2".to_string());
    let rendered = eval_tag_stack_node(&registry, &renderer, &node, &scope).unwrap();
    assert_eq!(rendered, "42".to_string());
}

#[test]
fn closed_literal_tag_wraps_children() {
    let registry = ComponentRegistry::default();
    let renderer = new_rhai_template_renderer("").unwrap();
    let scope = empty_context_scope();
    let node = TagNode::Tag {
        opening_tag: literal_header("b", vec![]),
        children: vec![TagNode::Text("hi".to_string())],
        is_closed: true,
    };
    let rendered = eval_tag_stack_node(&registry, &renderer, &node, &scope).unwrap();
    assert_eq!(rendered, "<b>hi</b>".to_string());
}

#[test]
fn unclosed_literal_tag_emits_no_closing_markup() {
    let registry = ComponentRegistry::default();
    let renderer = new_rhai_template_renderer("").unwrap();
    let scope = empty_context_scope();
    let node = TagNode::Tag {
        opening_tag: literal_header("b", vec![]),
        children: vec![TagNode::Text("hi".to_string())],
        is_closed: false,
    };
    let rendered = eval_tag_stack_node(&registry, &renderer, &node, &scope).unwrap();
    assert_eq!(rendered, "<b>hi".to_string());
}

#[test]
fn literal_tag_serializes_attributes() {
    let registry = ComponentRegistry::default();
    let renderer = new_rhai_template_renderer("").unwrap();
    let scope = empty_context_scope();
    let node = TagNode::Tag {
        opening_tag: literal_header(
            "img",
            vec![
                Attribute {
                    name: "src".to_string(),
                    value: Some(AttributeValue::Text("cat.png".to_string())),
                },
                Attribute {
                    name: "width".to_string(),
                    value: Some(AttributeValue::Expression("4 * 100".to_string())),
                },
                Attribute { name: "async".to_string(), value: None },
            ],
        ),
        children: vec![],
        is_closed: false,
    };
    let rendered = eval_tag_stack_node(&registry, &renderer, &node, &scope).unwrap();
    assert_eq!(rendered, "<img src=\"cat.png\" width=\"400\" async>".to_string());
}

#[test]
fn synthetic_group_renders_children_only() {
    let registry = ComponentRegistry::default();
    let renderer = new_rhai_template_renderer("").unwrap();
    let scope = empty_context_scope();
    let node = TagNode::Tag {
        opening_tag: None,
        children: vec![
            TagNode::Text("a".to_string()),
            TagNode::Text("b".to_string()),
        ],
        is_closed: false,
    };
    let rendered = eval_tag_stack_node(&registry, &renderer, &node, &scope).unwrap();
    assert_eq!(rendered, "ab".to_string());
}

#[test]
fn unregistered_component_fails_naming_it() {
    let registry = ComponentRegistry::default();
    let renderer = new_rhai_template_renderer("").unwrap();
    let scope = empty_context_scope();
    let node = TagNode::Tag {
        opening_tag: Some(TagHeader {
            name: "Card".to_string(),
            is_component: true,
            attributes: vec![],
        }),
        children: vec![],
        is_closed: true,
    };
    match eval_tag_stack_node(&registry, &renderer, &node, &scope) {
        Err(error) => {
            assert_eq!(
                error.message(),
                "Component not found: Component 'Card' not found".to_string()
            );
            match error {
                EvalError::ComponentNotFound(name) => assert_eq!(name, "Card".to_string()),
                other => panic!("expected a component-resolution failure, got {:?}", other),
            }
        }
        Ok(_) => panic!("expected a component-resolution failure"),
    }
}

#[test]
fn component_dispatch_receives_props_and_children() {
    let mut registry = ComponentRegistry::default();
    registry.register_component(ComponentReference {
        name: "Card".to_string(),
        global_fn_name: "card".to_string(),
    });
    let renderer = new_rhai_template_renderer(
        "fn card(context, props, children) { props.title + \"|\" + props.featured.to_string() + \"|\" + children }",
    )
    .unwrap();
    let scope = empty_context_scope();
    let node = TagNode::Tag {
        opening_tag: Some(TagHeader {
            name: "Card".to_string(),
            is_component: true,
            attributes: vec![
                Attribute {
                    name: "title".to_string(),
                    value: Some(AttributeValue::Text("hello".to_string())),
                },
                Attribute { name: "featured".to_string(), value: None },
            ],
        }),
        children: vec![TagNode::Text("inner".to_string())],
        is_closed: true,
    };
    let rendered = eval_tag_stack_node(&registry, &renderer, &node, &scope).unwrap();
    assert_eq!(rendered, "hello|true|inner".to_string());
}

#[test]
fn boolean_shorthand_attribute_binds_true() {
    let renderer = new_rhai_template_renderer("").unwrap();
    let scope = empty_context_scope();
    let attribute = Attribute { name: "featured".to_string(), value: None };
    let (name, value) = bind_attribute_value(&renderer, &scope, &attribute).unwrap();
    assert_eq!(name, "featured".to_string());
    match value {
        DynamicValue::Bool(b) => assert!(b),
        _ => panic!("boolean shorthand must bind true"),
    }
}

#[test]
fn component_without_context_in_scope_fails() {
    let mut registry = ComponentRegistry::default();
    registry.register_component(ComponentReference {
        name: "Card".to_string(),
        global_fn_name: "card".to_string(),
    });
    let renderer = new_rhai_template_renderer("fn card(context, props, children) { \"x\" }").unwrap();
    let scope = EvaluationScope { bindings: vec![] };
    let node = TagNode::Tag {
        opening_tag: Some(TagHeader {
            name: "Card".to_string(),
            is_component: true,
            attributes: vec![],
        }),
        children: vec![],
        is_closed: true,
    };
    match eval_tag_stack_node(&registry, &renderer, &node, &scope) {
        Err(EvalError::ScopeMissingContext) => {}
        other => panic!("expected a missing-context failure, got {:?}", other.is_ok()),
    }
}

#[test]
fn failing_dispatch_surfaces_as_dispatch_error() {
    let mut registry = ComponentRegistry::default();
    registry.register_component(ComponentReference {
        name: "Boom".to_string(),
        global_fn_name: "boom".to_string(),
    });
    let renderer =
        new_rhai_template_renderer("fn boom(context, props, children) { throw \"nope\" }").unwrap();
    let scope = empty_context_scope();
    let node = TagNode::Tag {
        opening_tag: Some(TagHeader {
            name: "Boom".to_string(),
            is_component: true,
            attributes: vec![],
        }),
        children: vec![],
        is_closed: true,
    };
    match eval_tag_stack_node(&registry, &renderer, &node, &scope) {
        Err(EvalError::Dispatch(_)) => {}
        other => panic!("expected a dispatch failure, got {:?}", other.is_ok()),
    }
}

#[test]
fn malformed_expression_surfaces_as_expression_error() {
    let registry = ComponentRegistry::default();
    let renderer = new_rhai_template_renderer("").unwrap();
    let scope = empty_context_scope();
    let node = TagNode::BodyExpression("1 +".to_string());
    match eval_tag_stack_node(&registry, &renderer, &node, &scope) {
        Err(EvalError::Expression(_)) => {}
        other => panic!("expected an expression failure, got {:?}", other.is_ok()),
    }
}

#[test]
fn registry_resolves_last_registration() {
    let mut registry = ComponentRegistry::default();
    registry.register_component(ComponentReference {
        name: "Card".to_string(),
        global_fn_name: "card_v1".to_string(),
    });
    registry.register_component(ComponentReference {
        name: "Card".to_string(),
        global_fn_name: "card_v2".to_string(),
    });
    assert_eq!(registry.get_global_fn_name("Card").unwrap(), "card_v2".to_string());
    assert!(registry.get_global_fn_name("Missing").is_err());
}

#[test]
fn string_forms_of_scalar_values() {
    assert_eq!(string_form(&DynamicValue::Int(-42)), "-42".to_string());
    assert_eq!(string_form(&DynamicValue::Int(0)), "0".to_string());
    assert_eq!(string_form(&DynamicValue::Bool(true)), "true".to_string());
    assert_eq!(string_form(&DynamicValue::Text("hi".to_string())), "hi".to_string());
    let nested = DynamicValue::List(vec![
        DynamicValue::Int(1),
        DynamicValue::Text("a".to_string()),
    ]);
    assert_eq!(string_form(&nested), "[1, \"a\"]".to_string());
}
