use vstd::prelude::*;

use crate::errors::EvalError;
use crate::registry::ComponentRegistry;
use crate::registry::registry_view;
use crate::value::DynamicValue;
use crate::value::body_expression_form;
use crate::value::render_body_value;
use crate::value::string_form;
use crate::value::string_form_spec;

verus! {

/// The value of a tag attribute: literal text, or the source text of an
/// expression to evaluate against the scope.
#[derive(Debug)]
pub enum AttributeValue {
    Text(String),
    Expression(String),
}

/// A named attribute of a tag's opening header.  An attribute with no value at
/// all is boolean shorthand: it binds `true` in a component's props map.
#[derive(Debug)]
pub struct Attribute {
    pub name: String,
    pub value: Option<AttributeValue>,
}

/// The opening header of a tag: its name, whether the name dispatches through
/// the component registry (against a literal markup tag), and its attributes
/// in source order.
#[derive(Debug)]
pub struct TagHeader {
    pub name: String,
    pub is_component: bool,
    pub attributes: Vec<Attribute>,
}

/// A parsed tag-tree node.  A `Tag` with no opening header is a synthetic
/// grouping node whose children render in order with no wrapping.
#[derive(Debug)]
pub enum TagNode {
    Text(String),
    BodyExpression(String),
    Tag { opening_tag: Option<TagHeader>, children: Vec<TagNode>, is_closed: bool },
}

/// A variable scope handed to the expression evaluator: named bindings in
/// push order, later bindings shadowing earlier ones of the same name.  A
/// binding holds a plain value; opaque services cannot stand in a scope.
pub struct EvaluationScope {
    pub bindings: Vec<(String, DynamicValue)>,
}

/// The binding a scope exposes under a name: the most recently pushed one.
pub open spec fn scope_find(bindings: Seq<(String, DynamicValue)>, name: Seq<char>) -> Option<
    DynamicValue,
>
    decreases bindings.len(),
{
    if bindings.len() == 0 {
        None
    } else if bindings.last().0@ == name {
        Some(bindings.last().1)
    } else {
        scope_find(bindings.drop_last(), name)
    }
}

/// Relies on str's PartialEq implementation: character-for-character equality.
#[verifier::external_body]
pub(crate) fn str_eq(a: &str, b: &str) -> (r: bool)
    ensures
        r == (a@ == b@),
{
    a == b
}

impl EvaluationScope {
    /// Looks a name up in the scope, most recent binding first.
    pub fn get(&self, name: &str) -> (r: Option<&DynamicValue>)
        ensures
            match r {
                Some(v) => scope_find(self.bindings@, name@) == Some(*v),
                None => scope_find(self.bindings@, name@) is None,
            },
    {
        let mut j: usize = self.bindings.len();
        proof {
            assert(self.bindings@.take(self.bindings@.len() as int) =~= self.bindings@);
        }
        while j > 0
            invariant
                j <= self.bindings@.len(),
                scope_find(self.bindings@, name@) == scope_find(
                    self.bindings@.take(j as int),
                    name@,
                ),
            decreases j,
        {
            proof {
                assert(self.bindings@.take(j as int).last() == self.bindings@[j - 1]);
                assert(self.bindings@.take(j as int).drop_last() =~= self.bindings@.take(j - 1));
            }
            if str_eq(self.bindings[j - 1].0.as_str(), name) {
                return Some(&self.bindings[j - 1].1);
            }
            j = j - 1;
        }
        proof {
            assert(self.bindings@.take(0) =~= Seq::<(String, DynamicValue)>::empty());
        }
        None
    }
}

// ------------------------------------------------------------------
// Trusted boundary to the outside expression evaluator.
// ------------------------------------------------------------------
#[verifier::external_type_specification]
#[verifier::external_body]
pub struct ExRhaiEngine(rhai::Engine);

#[verifier::external_type_specification]
#[verifier::external_body]
pub struct ExRhaiAst(rhai::AST);

#[verifier::external_type_specification]
#[verifier::external_body]
pub struct ExRhaiDynamic(rhai::Dynamic);

/// The expression evaluator and component dispatcher: an engine together with
/// the compiled script that defines the component functions.
pub struct RhaiTemplateRenderer {
    engine: rhai::Engine,
    components_ast: rhai::AST,
}

/// Relies on rhai::Engine::new and rhai::Engine::compile: a fresh engine and
/// the compiled form of the component script, or the parse failure's text.
#[verifier::external_body]
pub fn new_rhai_template_renderer(component_script: &str) -> (r: Result<RhaiTemplateRenderer,
    String>)
{
    let engine = rhai::Engine::new();
    match engine.compile(component_script) {
        Ok(components_ast) => Ok(RhaiTemplateRenderer { engine, components_ast }),
        Err(error) => Err(error.to_string()),
    }
}

/// Converts a library value into the evaluator's dynamic type, shape for shape.
#[verifier::external_body]
fn dynamic_of_value(v: &DynamicValue) -> rhai::Dynamic {
    match v {
        DynamicValue::Text(s) => s.clone().into(),
        DynamicValue::Bool(b) => (*b).into(),
        DynamicValue::Int(i) => (*i).into(),
        DynamicValue::List(items) => rhai::Dynamic::from_array(
            items.iter().map(dynamic_of_value).collect(),
        ),
        DynamicValue::Object(entries) => rhai::Dynamic::from_map(
            entries.iter().map(|(k, v)| (k.as_str().into(), dynamic_of_value(v))).collect(),
        ),
    }
}

/// Reads the evaluator's dynamic type back into the library's closed value
/// shapes, one test per shape; anything outside them falls back to its
/// display text.
#[verifier::external_body]
fn value_of_dynamic(d: rhai::Dynamic) -> DynamicValue {
    if d.is_bool() {
        DynamicValue::Bool(d.as_bool().unwrap_or(false))
    } else if d.is_int() {
        DynamicValue::Int(d.as_int().unwrap_or(0))
    } else if d.is_array() {
        let items = d.into_array().unwrap_or_default();
        DynamicValue::List(items.into_iter().map(value_of_dynamic).collect())
    } else if d.is_map() {
        let entries = d.cast::<rhai::Map>();
        DynamicValue::Object(entries.into_iter().map(|(k, v)| (k.to_string(), value_of_dynamic(v))).collect())
    } else {
        DynamicValue::Text(d.to_string())
    }
}

/// Relies on rhai::Engine::eval_expression_with_scope: parses the expression
/// text and evaluates it against a scope holding the given bindings; the
/// outcome depends on the engine, so nothing is promised of it.
#[verifier::external_body]
pub fn eval_expression(
    renderer: &RhaiTemplateRenderer,
    scope: &EvaluationScope,
    expression: &str,
) -> (r: Result<DynamicValue, String>) {
    let mut rhai_scope = rhai::Scope::new();
    for (name, value) in scope.bindings.iter() {
        rhai_scope.push(name.clone(), dynamic_of_value(value));
    }
    match renderer.engine.eval_expression_with_scope::<rhai::Dynamic>(
        &mut rhai_scope,
        expression,
    ) {
        Ok(value) => Ok(value_of_dynamic(value)),
        Err(error) => Err(error.to_string()),
    }
}

/// Relies on rhai::Engine::call_fn: invokes the named script function from the
/// compiled component script with (context, props, children); the outcome
/// depends on that function, so nothing is promised of it.
#[verifier::external_body]
fn call_component_function(
    renderer: &RhaiTemplateRenderer,
    global_fn_name: &str,
    context: &DynamicValue,
    props: &DynamicValue,
    children: &str,
) -> (r: Result<DynamicValue, String>) {
    let mut rhai_scope = rhai::Scope::new();
    let args = (dynamic_of_value(context), dynamic_of_value(props), rhai::Dynamic::from(
        children.to_owned(),
    ));
    match renderer.engine.call_fn::<rhai::Dynamic>(
        &mut rhai_scope,
        &renderer.components_ast,
        global_fn_name,
        args,
    ) {
        Ok(value) => Ok(value_of_dynamic(value)),
        Err(error) => Err(error.to_string()),
    }
}

// ------------------------------------------------------------------
// The rendering relation: what a successful render may return.
// ------------------------------------------------------------------
/// The literal opening markup of a tag: its name and serialized attributes in
/// angle brackets.
pub open spec fn open_markup(name: Seq<char>, attrs: Seq<char>) -> Seq<char> {
    seq!['<'] + name + attrs + seq!['>']
}

/// The literal closing markup of a tag.
pub open spec fn close_markup(name: Seq<char>) -> Seq<char> {
    seq!['<', '/'] + name + seq!['>']
}

/// What a closed tag appends after its children; an unclosed tag appends
/// nothing.
pub open spec fn close_suffix(name: Seq<char>, is_closed: bool) -> Seq<char> {
    if is_closed {
        close_markup(name)
    } else {
        Seq::<char>::empty()
    }
}

/// The serialized form of one attribute: a leading space and the name, plus
/// `="..."` holding literal text verbatim or an evaluated expression's scalar
/// string form; boolean shorthand serializes as the bare name.
pub open spec fn attr_piece(a: Attribute, out: Seq<char>) -> bool {
    match a.value {
        None => out == seq![' '] + a.name@,
        Some(AttributeValue::Text(t)) => out == seq![' '] + a.name@ + seq!['=', '"'] + t@
            + seq!['"'],
        Some(AttributeValue::Expression(_)) => exists|v: DynamicValue|
            out == seq![' '] + a.name@ + seq!['=', '"'] + string_form_spec(v) + seq!['"'],
    }
}

/// The serialized form of an attribute list: the concatenation of the pieces
/// of its attributes, in order.
pub open spec fn may_serialize_attrs(attrs: Seq<Attribute>, out: Seq<char>) -> bool
    decreases attrs.len(),
{
    if attrs.len() == 0 {
        out == Seq::<char>::empty()
    } else {
        exists|a: Seq<char>, b: Seq<char>|
            out == a + b && attr_piece(attrs[0], a) && may_serialize_attrs(attrs.drop_first(), b)
    }
}

/// What rendering a node may return.  Text returns itself; a body expression
/// returns some evaluated value's body-expression form; a component tag
/// returns some dispatched value's string form; a literal tag wraps its
/// children's renderings between its own opening markup and, exactly when it
/// is marked closed, its closing markup; a synthetic group returns only its
/// children's renderings.
pub open spec fn may_render(node: TagNode, out: Seq<char>) -> bool
    decreases node, 1int,
{
    match node {
        TagNode::Text(s) => out == s@,
        TagNode::BodyExpression(_) => exists|v: DynamicValue| out == body_expression_form(v),
        TagNode::Tag { opening_tag, children, is_closed } => {
            match opening_tag {
                None => may_render_children(children@, out),
                Some(header) => {
                    if header.is_component {
                        exists|v: DynamicValue| out == string_form_spec(v)
                    } else {
                        exists|attrs: Seq<char>, mid: Seq<char>|
                            may_serialize_attrs(header.attributes@, attrs)
                                && may_render_children(children@, mid) && out == open_markup(
                                header.name@,
                                attrs,
                            ) + mid + close_suffix(header.name@, is_closed)
                    }
                },
            }
        },
    }
}

/// What rendering a sequence of children in order may return: some
/// concatenation of renderings of each child.
pub open spec fn may_render_children(children: Seq<TagNode>, out: Seq<char>) -> bool
    decreases children, 0int,
{
    if children.len() == 0 {
        out == Seq::<char>::empty()
    } else {
        exists|a: Seq<char>, b: Seq<char>|
            out == a + b && may_render(children[0], a) && may_render_children(
                children.drop_first(),
                b,
            )
    }
}

/// Whether every child of a tag is plain text, with nothing to evaluate.
pub open spec fn children_all_text(children: Seq<TagNode>) -> bool {
    forall|k: int| 0 <= k < children.len() ==> (#[trigger] children[k]) is Text
}

/// Whether no attribute of a header carries an expression value.
pub open spec fn attrs_no_expression(attrs: Seq<Attribute>) -> bool {
    forall|k: int|
        0 <= k < attrs.len() ==> !((#[trigger] attrs[k]).value matches Some(
            AttributeValue::Expression(_),
        ))
}

/// Whether a node is literal: it holds no body expression, no component tag
/// and no expression attribute anywhere, so rendering it never consults the
/// outside evaluator.
pub open spec fn node_is_literal(node: TagNode) -> bool
    decreases node,
{
    match node {
        TagNode::Text(_) => true,
        TagNode::BodyExpression(_) => false,
        TagNode::Tag { opening_tag, children, is_closed } => (match opening_tag {
            None => true,
            Some(header) => !header.is_component && attrs_no_expression(header.attributes@),
        }) && (forall|k: int|
            0 <= k < children@.len() ==> node_is_literal(#[trigger] children@[k])),
    }
}

/// Whether the node is a component tag whose name the registry does not hold.
pub open spec fn unregistered_component_tag(
    node: TagNode,
    registered: Map<Seq<char>, Seq<char>>,
) -> bool {
    match node {
        TagNode::Tag { opening_tag: Some(header), .. } => header.is_component
            && !registered.contains_key(header.name@),
        _ => false,
    }
}

proof fn lemma_children_render_push(
    children: Seq<TagNode>,
    out: Seq<char>,
    child: TagNode,
    piece: Seq<char>,
)
    requires
        may_render_children(children, out),
        may_render(child, piece),
    ensures
        may_render_children(children.push(child), out + piece),
    decreases children.len(),
{
    if children.len() == 0 {
        assert(out + piece =~= piece + Seq::<char>::empty());
        assert(children.push(child).drop_first() =~= Seq::<TagNode>::empty());
        assert(may_render_children(children.push(child).drop_first(), Seq::<char>::empty()));
        assert(children.push(child)[0] == child);
    } else {
        let (a, b) = choose|a: Seq<char>, b: Seq<char>|
            out == a + b && may_render(children[0], a) && may_render_children(
                children.drop_first(),
                b,
            );
        lemma_children_render_push(children.drop_first(), b, child, piece);
        assert(children.push(child).drop_first() =~= children.drop_first().push(child));
        assert(children.push(child)[0] == children[0]);
        assert(out + piece =~= a + (b + piece));
    }
}

proof fn lemma_attrs_push(attrs: Seq<Attribute>, out: Seq<char>, attr: Attribute, piece: Seq<char>)
    requires
        may_serialize_attrs(attrs, out),
        attr_piece(attr, piece),
    ensures
        may_serialize_attrs(attrs.push(attr), out + piece),
    decreases attrs.len(),
{
    if attrs.len() == 0 {
        assert(out + piece =~= piece + Seq::<char>::empty());
        assert(attrs.push(attr).drop_first() =~= Seq::<Attribute>::empty());
        assert(may_serialize_attrs(attrs.push(attr).drop_first(), Seq::<char>::empty()));
        assert(attrs.push(attr)[0] == attr);
    } else {
        let (a, b) = choose|a: Seq<char>, b: Seq<char>|
            out == a + b && attr_piece(attrs[0], a) && may_serialize_attrs(attrs.drop_first(), b);
        lemma_attrs_push(attrs.drop_first(), b, attr, piece);
        assert(attrs.push(attr).drop_first() =~= attrs.drop_first().push(attr));
        assert(attrs.push(attr)[0] == attrs[0]);
        assert(out + piece =~= a + (b + piece));
    }
}

proof fn lemma_literal_attrs_unique(attrs: Seq<Attribute>, a: Seq<char>, b: Seq<char>)
    requires
        attrs_no_expression(attrs),
        may_serialize_attrs(attrs, a),
        may_serialize_attrs(attrs, b),
    ensures
        a == b,
    decreases attrs.len(),
{
    if attrs.len() > 0 {
        let (a1, a2) = choose|a1: Seq<char>, a2: Seq<char>|
            a == a1 + a2 && attr_piece(attrs[0], a1) && may_serialize_attrs(
                attrs.drop_first(),
                a2,
            );
        let (b1, b2) = choose|b1: Seq<char>, b2: Seq<char>|
            b == b1 + b2 && attr_piece(attrs[0], b1) && may_serialize_attrs(
                attrs.drop_first(),
                b2,
            );
        assert(!(attrs[0].value matches Some(AttributeValue::Expression(_))));
        assert(a1 == b1);
        assert(forall|k: int|
            0 <= k < attrs.drop_first().len() ==> !((#[trigger] attrs.drop_first()[k]).value
                matches Some(AttributeValue::Expression(_))));
        lemma_literal_attrs_unique(attrs.drop_first(), a2, b2);
    }
}

/// Law, rendering determinism: a literal node — one that never consults the
/// outside evaluator — has exactly one possible rendering.
pub proof fn lemma_literal_node_unique(node: TagNode, a: Seq<char>, b: Seq<char>)
    requires
        node_is_literal(node),
        may_render(node, a),
        may_render(node, b),
    ensures
        a == b,
    decreases node, 1int,
{
    match node {
        TagNode::Text(_) => {},
        TagNode::BodyExpression(_) => {
            assert(false);
        },
        TagNode::Tag { opening_tag, children, is_closed } => {
            match opening_tag {
                None => {
                    lemma_literal_children_unique(children@, a, b);
                },
                Some(header) => {
                    assert(!header.is_component);
                    let (aa, am) = choose|aa: Seq<char>, am: Seq<char>|
                        may_serialize_attrs(header.attributes@, aa) && may_render_children(
                            children@,
                            am,
                        ) && a == open_markup(header.name@, aa) + am + close_suffix(
                            header.name@,
                            is_closed,
                        );
                    let (ba, bm) = choose|ba: Seq<char>, bm: Seq<char>|
                        may_serialize_attrs(header.attributes@, ba) && may_render_children(
                            children@,
                            bm,
                        ) && b == open_markup(header.name@, ba) + bm + close_suffix(
                            header.name@,
                            is_closed,
                        );
                    lemma_literal_attrs_unique(header.attributes@, aa, ba);
                    lemma_literal_children_unique(children@, am, bm);
                },
            }
        },
    }
}

proof fn lemma_literal_children_unique(children: Seq<TagNode>, a: Seq<char>, b: Seq<char>)
    requires
        forall|k: int| 0 <= k < children.len() ==> node_is_literal(#[trigger] children[k]),
        may_render_children(children, a),
        may_render_children(children, b),
    ensures
        a == b,
    decreases children, 0int,
{
    if children.len() > 0 {
        let (a1, a2) = choose|a1: Seq<char>, a2: Seq<char>|
            a == a1 + a2 && may_render(children[0], a1) && may_render_children(
                children.drop_first(),
                a2,
            );
        let (b1, b2) = choose|b1: Seq<char>, b2: Seq<char>|
            b == b1 + b2 && may_render(children[0], b1) && may_render_children(
                children.drop_first(),
                b2,
            );
        lemma_literal_node_unique(children[0], a1, b1);
        assert(forall|k: int|
            0 <= k < children.drop_first().len() ==> node_is_literal(
                #[trigger] children.drop_first()[k],
            ));
        lemma_literal_children_unique(children.drop_first(), a2, b2);
    }
}

/// Binds one attribute for a component's props map: literal text binds
/// verbatim, an expression binds its evaluated value, and an attribute with no
/// value at all — boolean shorthand — binds `true`.
pub fn bind_attribute_value(
    renderer: &RhaiTemplateRenderer,
    scope: &EvaluationScope,
    attribute: &Attribute,
) -> (r: Result<(String, DynamicValue), EvalError>)
    ensures
        r matches Ok(p) ==> p.0@ == attribute.name@,
        attribute.value is None ==> (r matches Ok(p) && p.1 == DynamicValue::Bool(true)),
        match attribute.value {
            Some(AttributeValue::Text(t)) => r matches Ok(p) && p.1 matches DynamicValue::Text(s)
                && s@ == t@,
            _ => true,
        },
        r matches Err(e) ==> e is Expression,
{
    match &attribute.value {
        None => Ok((attribute.name.clone(), DynamicValue::Bool(true))),
        Some(AttributeValue::Text(t)) => Ok((attribute.name.clone(), DynamicValue::Text(
            t.clone(),
        ))),
        Some(AttributeValue::Expression(e)) => {
            match eval_expression(renderer, scope, e.as_str()) {
                Ok(v) => Ok((attribute.name.clone(), v)),
                Err(message) => Err(EvalError::Expression(message)),
            }
        },
    }
}

/// Renders the literal opening markup of a non-component tag: the name and
/// each attribute serialized in order, between angle brackets.
#[verifier::loop_isolation(false)]
fn render_opening_markup(
    renderer: &RhaiTemplateRenderer,
    header: &TagHeader,
    scope: &EvaluationScope,
) -> (r: Result<String, EvalError>)
    ensures
        r matches Ok(s) ==> exists|a: Seq<char>|
            may_serialize_attrs(header.attributes@, a) && s@ == open_markup(header.name@, a),
        r matches Err(e) ==> e is Expression,
        attrs_no_expression(header.attributes@) ==> r is Ok,
{
    let mut out = String::from_str("<");
    out.append(header.name.as_str());
    let ghost mut attrs_part: Seq<char> = Seq::empty();
    proof {
        reveal_strlit("<");
        assert(header.attributes@.take(0) =~= Seq::<Attribute>::empty());
        assert(may_serialize_attrs(header.attributes@.take(0), attrs_part));
        assert(out@ =~= seq!['<'] + header.name@ + attrs_part);
    }
    let mut j: usize = 0;
    while j < header.attributes.len()
        invariant
            j <= header.attributes@.len(),
            may_serialize_attrs(header.attributes@.take(j as int), attrs_part),
            out@ == seq!['<'] + header.name@ + attrs_part,
        decreases header.attributes@.len() - j,
    {
        let attribute = &header.attributes[j];
        let ghost old_attrs = attrs_part;
        let ghost old_out = out@;
        out.append(" ");
        out.append(attribute.name.as_str());
        let ghost mut piece: Seq<char> = seq![' '] + attribute.name@;
        proof {
            reveal_strlit(" ");
            assert(out@ =~= old_out + piece);
        }
        match &attribute.value {
            None => {
                proof {
                    assert(attr_piece(*attribute, piece));
                }
            },
            Some(AttributeValue::Text(t)) => {
                out.append("=\"");
                out.append(t.as_str());
                out.append("\"");
                proof {
                    reveal_strlit("=\"");
                    reveal_strlit("\"");
                    piece = piece + seq!['=', '"'] + t@ + seq!['"'];
                    assert(out@ =~= old_out + piece);
                    assert(attr_piece(*attribute, piece));
                }
            },
            Some(AttributeValue::Expression(e)) => {
                let value = match eval_expression(renderer, scope, e.as_str()) {
                    Ok(v) => v,
                    Err(message) => {
                        proof {
                            if attrs_no_expression(header.attributes@) {
                                assert(!(header.attributes@[j as int].value matches Some(
                                    AttributeValue::Expression(_),
                                )));
                                assert(false);
                            }
                        }
                        return Err(EvalError::Expression(message));
                    },
                };
                let rendered = string_form(&value);
                out.append("=\"");
                out.append(rendered.as_str());
                out.append("\"");
                proof {
                    reveal_strlit("=\"");
                    reveal_strlit("\"");
                    piece = piece + seq!['=', '"'] + string_form_spec(value) + seq!['"'];
                    assert(out@ =~= old_out + piece);
                    assert(attr_piece(*attribute, piece));
                }
            },
        }
        proof {
            lemma_attrs_push(
                header.attributes@.take(j as int),
                old_attrs,
                header.attributes@[j as int],
                piece,
            );
            assert(header.attributes@.take(j as int).push(header.attributes@[j as int])
                =~= header.attributes@.take(j as int + 1));
            attrs_part = old_attrs + piece;
            assert(out@ =~= seq!['<'] + header.name@ + attrs_part);
        }
        j = j + 1;
    }
    proof {
        assert(header.attributes@.take(header.attributes@.len() as int) =~= header.attributes@);
    }
    out.append(">");
    proof {
        reveal_strlit(">");
        assert(out@ =~= open_markup(header.name@, attrs_part));
    }
    Ok(out)
}

/// Recursively renders a parsed tag-tree node against the scope.  A
/// successful render satisfies the `may_render` relation — in particular a
/// literal tag wraps its children in its own opening and, exactly when marked
/// closed, closing markup.  A component tag whose name is unregistered never
/// renders, and a component-resolution failure only ever names an
/// unregistered component.
#[verifier::loop_isolation(false)]
pub fn eval_tag_stack_node(
    component_registry: &ComponentRegistry,
    renderer: &RhaiTemplateRenderer,
    current_node: &TagNode,
    scope: &EvaluationScope,
) -> (r: Result<String, EvalError>)
    ensures
        r matches Ok(s) ==> may_render(*current_node, s@),
        unregistered_component_tag(*current_node, registry_view(*component_registry)) ==> r is Err,
        match r {
            Err(EvalError::ComponentNotFound(m)) => !registry_view(
                *component_registry,
            ).contains_key(m@),
            _ => true,
        },
        r matches Err(e) ==> !(e is ArgumentMissing) && !(e is NoRoleMarker),
        (*current_node) is Text ==> r is Ok,
        node_is_literal(*current_node) ==> r is Ok,
        match *current_node {
            TagNode::Tag { opening_tag: Some(header), children, is_closed } => (header.is_component
                && scope_find(scope.bindings@, "context"@) is None && children_all_text(children@)
                && attrs_no_expression(header.attributes@)) ==> r == Err::<String, EvalError>(
                EvalError::ScopeMissingContext,
            ),
            _ => true,
        },
        match *current_node {
            TagNode::Tag { opening_tag: Some(header), children, is_closed } => (header.is_component
                && !registry_view(*component_registry).contains_key(header.name@)
                && children_all_text(children@) && attrs_no_expression(header.attributes@)
                && scope_find(scope.bindings@, "context"@) is Some) ==> (r matches Err(
                EvalError::ComponentNotFound(m),
            ) && m@ == header.name@),
            _ => true,
        },
    decreases *current_node,
{
    match current_node {
        TagNode::Text(text) => Ok(text.clone()),
        TagNode::BodyExpression(expression) => {
            match eval_expression(renderer, scope, expression.as_str()) {
                Ok(value) => {
                    let rendered = render_body_value(&value);
                    proof {
                        assert(rendered@ == body_expression_form(value));
                    }
                    Ok(rendered)
                },
                Err(message) => Err(EvalError::Expression(message)),
            }
        },
        TagNode::Tag { opening_tag, children, is_closed } => {
            let mut rendered_children = String::new();
            proof {
                assert(children@.take(0) =~= Seq::<TagNode>::empty());
                assert(may_render_children(children@.take(0), rendered_children@));
            }
            let mut j: usize = 0;
            while j < children.len()
                invariant
                    j <= children@.len(),
                    may_render_children(children@.take(j as int), rendered_children@),
                decreases children@.len() - j,
            {
                proof {
                    assert(decreases_to!(*current_node => *children));
                    assert(decreases_to!(*children => children@));
                    assert(decreases_to!(children@ => children@[j as int]));
                }
                match eval_tag_stack_node(component_registry, renderer, &children[j], scope) {
                    Ok(piece) => {
                        proof {
                            lemma_children_render_push(
                                children@.take(j as int),
                                rendered_children@,
                                children@[j as int],
                                piece@,
                            );
                            assert(children@.take(j as int).push(children@[j as int])
                                =~= children@.take(j as int + 1));
                        }
                        rendered_children.append(piece.as_str());
                    },
                    Err(error) => {
                        proof {
                            if children_all_text(children@) {
                                assert(children@[j as int] is Text);
                                assert(false);
                            }
                            if node_is_literal(*current_node) {
                                assert(node_is_literal(children@[j as int]));
                                assert(false);
                            }
                        }
                        return Err(error);
                    },
                }
                j = j + 1;
            }
            proof {
                assert(children@.take(children@.len() as int) =~= children@);
            }
            match opening_tag {
                None => Ok(rendered_children),
                Some(header) => {
                    if header.is_component {
                        proof {
                            if node_is_literal(*current_node) {
                                assert(!header.is_component);
                            }
                        }
                        let mut props: Vec<(String, DynamicValue)> = Vec::new();
                        let mut k: usize = 0;
                        while k < header.attributes.len()
                            decreases header.attributes@.len() - k,
                        {
                            match bind_attribute_value(renderer, scope, &header.attributes[k]) {
                                Ok(bound) => {
                                    props.push(bound);
                                },
                                Err(error) => {
                                    proof {
                                        if attrs_no_expression(header.attributes@) {
                                            assert(!(header.attributes@[k as int].value matches
                                                Some(AttributeValue::Expression(_))));
                                            assert(false);
                                        }
                                    }
                                    return Err(error);
                                },
                            }
                            k = k + 1;
                        }
                        let context = match scope.get("context") {
                            Some(c) => c,
                            None => {
                                return Err(EvalError::ScopeMissingContext);
                            },
                        };
                        let global_fn_name = match component_registry.get_global_fn_name(
                            header.name.as_str(),
                        ) {
                            Ok(g) => g,
                            Err(error) => {
                                return Err(error);
                            },
                        };
                        let props_value = DynamicValue::Object(props);
                        match call_component_function(
                            renderer,
                            global_fn_name.as_str(),
                            context,
                            &props_value,
                            rendered_children.as_str(),
                        ) {
                            Ok(value) => {
                                let rendered = string_form(&value);
                                proof {
                                    assert(rendered@ == string_form_spec(value));
                                }
                                Ok(rendered)
                            },
                            Err(message) => Err(EvalError::Dispatch(message)),
                        }
                    } else {
                        let mut out = match render_opening_markup(renderer, header, scope) {
                            Ok(markup) => markup,
                            Err(error) => {
                                proof {
                                    if node_is_literal(*current_node) {
                                        assert(attrs_no_expression(header.attributes@));
                                        assert(false);
                                    }
                                }
                                return Err(error);
                            },
                        };
                        let ghost attrs_part = choose|a: Seq<char>|
                            may_serialize_attrs(header.attributes@, a) && out@ == open_markup(
                                header.name@,
                                a,
                            );
                        out.append(rendered_children.as_str());
                        if *is_closed {
                            out.append("</");
                            out.append(header.name.as_str());
                            out.append(">");
                            proof {
                                reveal_strlit("</");
                                reveal_strlit(">");
                                assert(out@ =~= open_markup(header.name@, attrs_part)
                                    + rendered_children@ + close_suffix(header.name@, *is_closed));
                            }
                        } else {
                            proof {
                                assert(out@ =~= open_markup(header.name@, attrs_part)
                                    + rendered_children@ + close_suffix(header.name@, *is_closed));
                            }
                        }
                        Ok(out)
                    }
                },
            }
        },
    }
}

} // verus!
