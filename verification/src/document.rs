use vstd::prelude::*;

use crate::errors::EvalError;
use crate::registry::ComponentRegistry;
use crate::rhai_components::EvaluationScope;
use crate::rhai_components::RhaiTemplateRenderer;
use crate::rhai_components::TagNode;
use crate::rhai_components::eval_tag_stack_node;
use crate::rhai_components::lemma_literal_node_unique;
use crate::rhai_components::may_render;
use crate::rhai_components::node_is_literal;
use crate::rhai_components::str_eq;

verus! {

/// The speaker a message is tagged with.
#[derive(Clone, Copy, Debug, PartialEq, Eq, Structural)]
pub enum Role {
    User,
    Assistant,
}

/// One role-tagged message of an evaluated document.
#[derive(Debug)]
pub struct PromptMessage {
    pub role: Role,
    pub content: String,
}

/// One inline run of a block: a bolded token (the shape role markers take) or
/// an embedded tag-tree region.
#[derive(Debug)]
pub enum Inline {
    Bold(String),
    Node(TagNode),
}

/// One block of a document's body, in document order.
#[derive(Debug)]
pub struct Block {
    pub inlines: Vec<Inline>,
}

/// A document's parsed body: its blocks in document order.
#[derive(Debug)]
pub struct DocumentTree {
    pub blocks: Vec<Block>,
}

/// The role a recognized marker token names.
pub open spec fn role_of_token(token: Seq<char>) -> Option<Role> {
    if token == "user"@ {
        Some(Role::User)
    } else if token == "assistant"@ {
        Some(Role::Assistant)
    } else {
        None
    }
}

fn role_of_token_exec(token: &str) -> (r: Option<Role>)
    ensures
        r == role_of_token(token@),
{
    if str_eq(token, "user") {
        Some(Role::User)
    } else if str_eq(token, "assistant") {
        Some(Role::Assistant)
    } else {
        None
    }
}

/// The leading role marker of a block, if it has one: a recognized bolded
/// token as the first inline, immediately followed by text starting with ':'.
pub open spec fn block_marker(b: Block) -> Option<Role> {
    if b.inlines@.len() >= 2 {
        match (b.inlines@[0], b.inlines@[1]) {
            (Inline::Bold(token), Inline::Node(TagNode::Text(t))) => {
                if t@.len() >= 1 && t@[0] == ':' {
                    role_of_token(token@)
                } else {
                    None
                }
            },
            _ => None,
        }
    } else {
        None
    }
}

/// The text of a marker block that follows the marker's colon.  Meaningful
/// only when `block_marker` is `Some`.
pub open spec fn marker_tail(b: Block) -> Seq<char> {
    b.inlines@[1]->Node_0->Text_0@.drop_first()
}

/// Whitespace that block-boundary trimming removes.
pub open spec fn is_ws(c: char) -> bool {
    c == ' ' || c == '\n' || c == '\t' || c == '\r'
}

fn is_ws_char(c: char) -> (r: bool)
    ensures
        r == is_ws(c),
{
    c == ' ' || c == '\n' || c == '\t' || c == '\r'
}

/// The text with its leading whitespace removed.
pub open spec fn ltrim(s: Seq<char>) -> Seq<char>
    decreases s.len(),
{
    if s.len() > 0 && is_ws(s[0]) {
        ltrim(s.drop_first())
    } else {
        s
    }
}

/// The text with its trailing whitespace removed.
pub open spec fn rtrim(s: Seq<char>) -> Seq<char>
    decreases s.len(),
{
    if s.len() > 0 && is_ws(s[s.len() - 1]) {
        rtrim(s.drop_last())
    } else {
        s
    }
}

/// The text with leading and trailing whitespace removed.
pub open spec fn trim_spec(s: Seq<char>) -> Seq<char> {
    rtrim(ltrim(s))
}

proof fn lemma_ltrim_skip(s: Seq<char>, i: int)
    requires
        0 <= i <= s.len(),
        forall|k: int| 0 <= k < i ==> is_ws(#[trigger] s[k]),
    ensures
        ltrim(s) == ltrim(s.skip(i)),
    decreases i,
{
    if i == 0 {
        assert(s.skip(0) =~= s);
    } else {
        assert(is_ws(s[0]));
        assert(s.drop_first() =~= s.skip(1));
        lemma_ltrim_skip(s.skip(1), i - 1);
        assert(s.skip(1).skip(i - 1) =~= s.skip(i));
    }
}

proof fn lemma_rtrim_take(s: Seq<char>, j: int)
    requires
        0 <= j <= s.len(),
        forall|k: int| j <= k < s.len() ==> is_ws(#[trigger] s[k]),
    ensures
        rtrim(s) == rtrim(s.take(j)),
    decreases s.len(),
{
    if j == s.len() {
        assert(s.take(j) =~= s);
    } else {
        assert(is_ws(s[s.len() - 1]));
        assert(s.drop_last() =~= s.take(s.len() - 1));
        lemma_rtrim_take(s.take(s.len() - 1), j);
        assert(s.take(s.len() - 1).take(j) =~= s.take(j));
    }
}

/// Trims leading and trailing whitespace, exactly as `trim_spec` states it.
pub fn trim_string(s: &str) -> (r: String)
    ensures
        r@ == trim_spec(s@),
{
    let n = s.unicode_len();
    let mut i: usize = 0;
    while i < n && is_ws_char(s.get_char(i))
        invariant
            i <= n,
            n == s@.len(),
            forall|k: int| 0 <= k < i ==> is_ws(#[trigger] s@[k]),
        decreases n - i,
    {
        i = i + 1;
    }
    let mut j: usize = n;
    while j > i && is_ws_char(s.get_char(j - 1))
        invariant
            i <= j <= n,
            n == s@.len(),
            forall|k: int| j <= k < n ==> is_ws(#[trigger] s@[k]),
        decreases j,
    {
        j = j - 1;
    }
    let out = s.substring_char(i, j).to_owned();
    proof {
        lemma_ltrim_skip(s@, i as int);
        if i < n {
            assert(!is_ws(s@.skip(i as int)[0]));
        }
        assert(ltrim(s@.skip(i as int)) == s@.skip(i as int));
        lemma_rtrim_take(s@.skip(i as int), j - i);
        assert(s@.skip(i as int).take(j - i) =~= s@.subrange(i as int, j as int));
        if j > i {
            assert(s@.subrange(i as int, j as int).last() == s@[j - 1]);
            assert(!is_ws(s@.subrange(i as int, j as int).last()));
        }
        assert(rtrim(s@.subrange(i as int, j as int)) == s@.subrange(i as int, j as int));
    }
    out
}

/// The rendering of one inline: a bolded token renders inside double
/// asterisks; an embedded node renders as the tag-tree interpreter may render
/// it.
pub open spec fn may_render_inline(inline: Inline, out: Seq<char>) -> bool {
    match inline {
        Inline::Bold(token) => out == seq!['*', '*'] + token@ + seq!['*', '*'],
        Inline::Node(node) => may_render(node, out),
    }
}

/// The rendering of a run of inlines: some concatenation of renderings of
/// each, in order.
pub open spec fn may_render_inlines(inlines: Seq<Inline>, out: Seq<char>) -> bool
    decreases inlines.len(),
{
    if inlines.len() == 0 {
        out == Seq::<char>::empty()
    } else {
        exists|a: Seq<char>, b: Seq<char>|
            out == a + b && may_render_inline(inlines[0], a) && may_render_inlines(
                inlines.drop_first(),
                b,
            )
    }
}

proof fn lemma_inlines_render_push(
    inlines: Seq<Inline>,
    out: Seq<char>,
    inline: Inline,
    piece: Seq<char>,
)
    requires
        may_render_inlines(inlines, out),
        may_render_inline(inline, piece),
    ensures
        may_render_inlines(inlines.push(inline), out + piece),
    decreases inlines.len(),
{
    if inlines.len() == 0 {
        assert(out + piece =~= piece + Seq::<char>::empty());
        assert(inlines.push(inline).drop_first() =~= Seq::<Inline>::empty());
        assert(may_render_inlines(inlines.push(inline).drop_first(), Seq::<char>::empty()));
        assert(inlines.push(inline)[0] == inline);
    } else {
        let (a, b) = choose|a: Seq<char>, b: Seq<char>|
            out == a + b && may_render_inline(inlines[0], a) && may_render_inlines(
                inlines.drop_first(),
                b,
            );
        lemma_inlines_render_push(inlines.drop_first(), b, inline, piece);
        assert(inlines.push(inline).drop_first() =~= inlines.drop_first().push(inline));
        assert(inlines.push(inline)[0] == inlines[0]);
        assert(out + piece =~= a + (b + piece));
    }
}

/// What evaluating one block may produce: its marker, and its rendered text —
/// for a marker block, the text after the marker's colon followed by the
/// renderings of the remaining inlines; otherwise the renderings of all its
/// inlines — trimmed of leading and trailing whitespace.
pub open spec fn may_render_block(b: Block, out: Seq<char>) -> bool {
    if block_marker(b) is Some {
        exists|rest: Seq<char>|
            may_render_inlines(b.inlines@.skip(2), rest) && out == trim_spec(marker_tail(b) + rest)
    } else {
        exists|raw: Seq<char>| may_render_inlines(b.inlines@, raw) && out == trim_spec(raw)
    }
}

/// Evaluates one block: detects its leading role marker, renders the rest of
/// its inlines, and trims the block's text at its boundaries.
#[verifier::loop_isolation(false)]
pub fn render_block(
    component_registry: &ComponentRegistry,
    renderer: &RhaiTemplateRenderer,
    block: &Block,
    scope: &EvaluationScope,
) -> (r: Result<(Option<Role>, String), EvalError>)
    ensures
        r matches Ok(p) ==> p.0 == block_marker(*block) && may_render_block(*block, p.1@),
        r matches Err(e) ==> !(e is ArgumentMissing) && !(e is NoRoleMarker),
        block_is_literal(*block) ==> r is Ok,
{
    let mut marker: Option<Role> = None;
    let mut raw = String::new();
    let mut start: usize = 0;
    if block.inlines.len() >= 2 {
        match (&block.inlines[0], &block.inlines[1]) {
            (Inline::Bold(token), Inline::Node(TagNode::Text(t))) => {
                let t_str = t.as_str();
                if t_str.unicode_len() >= 1 && t_str.get_char(0) == ':' {
                    match role_of_token_exec(token.as_str()) {
                        Some(role) => {
                            marker = Some(role);
                            start = 2;
                            raw = t_str.substring_char(1, t_str.unicode_len()).to_owned();
                            proof {
                                assert(raw@ =~= marker_tail(*block));
                            }
                        },
                        None => {},
                    }
                }
            },
            _ => {},
        }
    }
    let ghost tail: Seq<char> = raw@;
    let ghost content: Seq<Inline> = block.inlines@.skip(start as int);
    let ghost mut rest: Seq<char> = Seq::empty();
    proof {
        assert(content.take(0) =~= Seq::<Inline>::empty());
        assert(may_render_inlines(content.take(0), rest));
        assert(raw@ =~= tail + rest);
    }
    let mut j: usize = start;
    while j < block.inlines.len()
        invariant
            start <= j <= block.inlines@.len(),
            content == block.inlines@.skip(start as int),
            may_render_inlines(content.take(j - start), rest),
            raw@ == tail + rest,
        decreases block.inlines@.len() - j,
    {
        let ghost old_rest = rest;
        let ghost mut piece: Seq<char> = Seq::empty();
        match &block.inlines[j] {
            Inline::Bold(token) => {
                raw.append("**");
                raw.append(token.as_str());
                raw.append("**");
                proof {
                    reveal_strlit("**");
                    piece = seq!['*', '*'] + token@ + seq!['*', '*'];
                    assert(may_render_inline(block.inlines@[j as int], piece));
                }
            },
            Inline::Node(node) => {
                match eval_tag_stack_node(component_registry, renderer, node, scope) {
                    Ok(rendered) => {
                        proof {
                            piece = rendered@;
                            assert(may_render_inline(block.inlines@[j as int], piece));
                        }
                        raw.append(rendered.as_str());
                    },
                    Err(error) => {
                        proof {
                            if block_is_literal(*block) {
                                assert(inline_is_literal(block.inlines@[j as int]));
                                assert(false);
                            }
                        }
                        return Err(error);
                    },
                }
            },
        }
        proof {
            rest = old_rest + piece;
            assert(content.take(j - start) =~= content.take((j - start) as int));
            assert(content[(j - start) as int] == block.inlines@[j as int]);
            lemma_inlines_render_push(
                content.take((j - start) as int),
                old_rest,
                content[(j - start) as int],
                piece,
            );
            assert(content.take((j - start) as int).push(content[(j - start) as int])
                =~= content.take((j - start) as int + 1));
            assert(raw@ =~= tail + rest);
        }
        j = j + 1;
    }
    proof {
        assert(content.take(block.inlines@.len() - start) =~= content);
    }
    let trimmed = trim_string(raw.as_str());
    proof {
        assert(marker == block_marker(*block));
        if block_marker(*block) is Some {
            assert(content =~= block.inlines@.skip(2));
            assert(trimmed@ == trim_spec(marker_tail(*block) + rest));
        } else {
            assert(content =~= block.inlines@);
            assert(tail =~= Seq::<char>::empty());
            assert(tail + rest =~= rest);
            assert(trimmed@ == trim_spec(rest));
        }
        assert(may_render_block(*block, trimmed@));
    }
    Ok((marker, trimmed))
}

/// A sequence of messages as their (role, content) pairs.
pub open spec fn messages_view(msgs: Seq<PromptMessage>) -> Seq<(Role, Seq<char>)> {
    msgs.map_values(|m: PromptMessage| (m.role, m.content@))
}

/// Partitions evaluated block pieces into role-tagged messages.  Walking the
/// pieces in order: a marker piece flushes any non-empty pending chunk under
/// the role current until then and starts a new pending chunk with its own
/// text; a markerless piece's non-empty text joins the pending chunk after a
/// blank line; markerless text before any marker fails; at the end any
/// non-empty pending chunk flushes under the current role.  Empty pending
/// chunks are never emitted.
pub open spec fn spec_segment(
    pieces: Seq<(Option<Role>, Seq<char>)>,
    cur: Option<Role>,
    pending: Seq<char>,
    acc: Seq<(Role, Seq<char>)>,
) -> Result<Seq<(Role, Seq<char>)>, EvalError>
    decreases pieces.len(),
{
    if pieces.len() == 0 {
        if pending.len() == 0 {
            Ok(acc)
        } else {
            match cur {
                Some(role) => Ok(acc.push((role, pending))),
                None => Err(EvalError::NoRoleMarker),
            }
        }
    } else {
        let (marker, text) = pieces[0];
        match marker {
            Some(role) => {
                if pending.len() > 0 {
                    match cur {
                        Some(previous) => spec_segment(
                            pieces.drop_first(),
                            Some(role),
                            text,
                            acc.push((previous, pending)),
                        ),
                        None => Err(EvalError::NoRoleMarker),
                    }
                } else {
                    spec_segment(pieces.drop_first(), Some(role), text, acc)
                }
            },
            None => {
                if text.len() == 0 {
                    spec_segment(pieces.drop_first(), cur, pending, acc)
                } else if cur is None {
                    Err(EvalError::NoRoleMarker)
                } else if pending.len() == 0 {
                    spec_segment(pieces.drop_first(), cur, text, acc)
                } else {
                    spec_segment(pieces.drop_first(), cur, pending + "\n\n"@ + text, acc)
                }
            },
        }
    }
}

/// The pieces a vector of evaluated blocks holds, at the spec level.
pub open spec fn pieces_view(pieces: Seq<(Option<Role>, String)>) -> Seq<(Option<Role>, Seq<char>)> {
    pieces.map_values(|p: (Option<Role>, String)| (p.0, p.1@))
}

/// Assembles evaluated block pieces into the ordered message sequence, exactly
/// as `spec_segment` states it.
#[verifier::loop_isolation(false)]
pub fn segment(pieces: &Vec<(Option<Role>, String)>) -> (r: Result<Vec<PromptMessage>, EvalError>)
    ensures
        match r {
            Ok(msgs) => spec_segment(pieces_view(pieces@), None, Seq::empty(), Seq::empty()) == Ok::<
                _,
                EvalError,
            >(messages_view(msgs@)),
            Err(e) => spec_segment(pieces_view(pieces@), None, Seq::empty(), Seq::empty())
                == Err::<Seq<(Role, Seq<char>)>, _>(e),
        },
        r matches Err(e) ==> e is NoRoleMarker,
{
    let ghost pv = pieces_view(pieces@);
    let mut cur: Option<Role> = None;
    let mut pending = String::new();
    let mut acc: Vec<PromptMessage> = Vec::new();
    proof {
        assert(pv.skip(0) =~= pv);
        assert(messages_view(acc@) =~= Seq::<(Role, Seq<char>)>::empty());
    }
    let mut i: usize = 0;
    while i < pieces.len()
        invariant
            i <= pieces@.len(),
            pv == pieces_view(pieces@),
            spec_segment(pv, None, Seq::empty(), Seq::empty()) == spec_segment(
                pv.skip(i as int),
                cur,
                pending@,
                messages_view(acc@),
            ),
        decreases pieces@.len() - i,
    {
        proof {
            assert(pv.skip(i as int)[0] == pv[i as int]);
            assert(pv.skip(i as int).drop_first() =~= pv.skip(i as int + 1));
        }
        let piece_text_len = pieces[i].1.as_str().unicode_len();
        match pieces[i].0 {
            Some(role) => {
                if pending.as_str().unicode_len() > 0 {
                    match cur {
                        Some(previous) => {
                            let flushed = pending;
                            pending = pieces[i].1.clone();
                            let ghost before = acc@;
                            acc.push(PromptMessage { role: previous, content: flushed });
                            proof {
                                assert(messages_view(acc@) =~= messages_view(before).push(
                                    (previous, flushed@),
                                ));
                            }
                            cur = Some(role);
                        },
                        None => {
                            return Err(EvalError::NoRoleMarker);
                        },
                    }
                } else {
                    pending = pieces[i].1.clone();
                    cur = Some(role);
                }
            },
            None => {
                if piece_text_len == 0 {
                    // an empty block contributes nothing
                } else if cur.is_none() {
                    return Err(EvalError::NoRoleMarker);
                } else if pending.as_str().unicode_len() == 0 {
                    pending = pieces[i].1.clone();
                } else {
                    pending.append("\n\n");
                    pending.append(pieces[i].1.as_str());
                }
            },
        }
        i = i + 1;
    }
    proof {
        assert(pv.skip(pieces@.len() as int) =~= Seq::<(Option<Role>, Seq<char>)>::empty());
    }
    if pending.as_str().unicode_len() > 0 {
        match cur {
            Some(role) => {
                let ghost before = acc@;
                let flushed = pending;
                acc.push(PromptMessage { role, content: flushed });
                proof {
                    assert(messages_view(acc@) =~= messages_view(before).push((role, flushed@)));
                }
                Ok(acc)
            },
            None => Err(EvalError::NoRoleMarker),
        }
    } else {
        Ok(acc)
    }
}

/// Whether each evaluated piece is a faithful evaluation of its block: the
/// detected marker, and a text the block may render to.
pub open spec fn blocks_render(blocks: Seq<Block>, pieces: Seq<(Option<Role>, Seq<char>)>) -> bool {
    &&& pieces.len() == blocks.len()
    &&& forall|k: int|
        0 <= k < blocks.len() ==> (#[trigger] pieces[k]).0 == block_marker(blocks[k])
            && may_render_block(blocks[k], pieces[k].1)
}

/// Walks a document's blocks in order, evaluates each, and assembles the
/// role-tagged message sequence.  A successful result is the exact
/// segmentation, as `spec_segment` states it, of per-block pieces that carry
/// each block's detected marker and a text that block may render to.
#[verifier::loop_isolation(false)]
pub fn evaluate_document(
    component_registry: &ComponentRegistry,
    renderer: &RhaiTemplateRenderer,
    tree: &DocumentTree,
    scope: &EvaluationScope,
) -> (r: Result<Vec<PromptMessage>, EvalError>)
    ensures
        r matches Ok(msgs) ==> exists|pieces: Seq<(Option<Role>, Seq<char>)>|
            blocks_render(tree.blocks@, pieces) && spec_segment(
                pieces,
                None,
                Seq::empty(),
                Seq::empty(),
            ) == Ok::<_, EvalError>(messages_view(msgs@)),
        r matches Err(e) ==> !(e is ArgumentMissing),
        document_is_literal(tree.blocks@) ==> match r {
            Ok(_) => true,
            Err(e) => e == EvalError::NoRoleMarker && exists|
                pieces: Seq<(Option<Role>, Seq<char>)>,
            |
                blocks_render(tree.blocks@, pieces) && spec_segment(
                    pieces,
                    None,
                    Seq::empty(),
                    Seq::empty(),
                ) == Err::<Seq<(Role, Seq<char>)>, EvalError>(EvalError::NoRoleMarker),
        },
        document_is_literal(tree.blocks@) ==> ((exists|pieces: Seq<(Option<Role>, Seq<char>)>|
            blocks_render(tree.blocks@, pieces) && spec_segment(
                pieces,
                None,
                Seq::empty(),
                Seq::empty(),
            ) is Ok) ==> r is Ok),
{
    let mut pieces: Vec<(Option<Role>, String)> = Vec::new();
    let mut i: usize = 0;
    while i < tree.blocks.len()
        invariant
            i <= tree.blocks@.len(),
            pieces@.len() == i as int,
            forall|k: int|
                0 <= k < i ==> (#[trigger] pieces@[k]).0 == block_marker(tree.blocks@[k])
                    && may_render_block(tree.blocks@[k], pieces@[k].1@),
        decreases tree.blocks@.len() - i,
    {
        match render_block(component_registry, renderer, &tree.blocks[i], scope) {
            Ok(piece) => {
                pieces.push(piece);
            },
            Err(error) => {
                proof {
                    if document_is_literal(tree.blocks@) {
                        assert(block_is_literal(tree.blocks@[i as int]));
                        assert(false);
                    }
                }
                return Err(error);
            },
        }
        i = i + 1;
    }
    match segment(&pieces) {
        Ok(msgs) => {
            proof {
                assert(blocks_render(tree.blocks@, pieces_view(pieces@)));
            }
            Ok(msgs)
        },
        Err(error) => {
            proof {
                assert(blocks_render(tree.blocks@, pieces_view(pieces@)));
                if document_is_literal(tree.blocks@) {
                    if exists|other: Seq<(Option<Role>, Seq<char>)>|
                        blocks_render(tree.blocks@, other) && spec_segment(
                            other,
                            None,
                            Seq::empty(),
                            Seq::empty(),
                        ) is Ok {
                        let other = choose|other: Seq<(Option<Role>, Seq<char>)>|
                            blocks_render(tree.blocks@, other) && spec_segment(
                                other,
                                None,
                                Seq::empty(),
                                Seq::empty(),
                            ) is Ok;
                        lemma_literal_pieces_unique(tree.blocks@, other, pieces_view(pieces@));
                        assert(false);
                    }
                }
            }
            Err(error)
        },
    }
}

/// Whether an inline is literal: a bolded token, or a node with nothing for
/// the outside evaluator to decide.
pub open spec fn inline_is_literal(inline: Inline) -> bool {
    match inline {
        Inline::Bold(_) => true,
        Inline::Node(node) => node_is_literal(node),
    }
}

/// Whether every inline of a block is literal.
pub open spec fn block_is_literal(b: Block) -> bool {
    forall|k: int| 0 <= k < b.inlines@.len() ==> inline_is_literal(#[trigger] b.inlines@[k])
}

/// Whether every block of a document is literal.
pub open spec fn document_is_literal(blocks: Seq<Block>) -> bool {
    forall|k: int| 0 <= k < blocks.len() ==> block_is_literal(#[trigger] blocks[k])
}

proof fn lemma_literal_inlines_unique(inlines: Seq<Inline>, a: Seq<char>, b: Seq<char>)
    requires
        forall|k: int| 0 <= k < inlines.len() ==> inline_is_literal(#[trigger] inlines[k]),
        may_render_inlines(inlines, a),
        may_render_inlines(inlines, b),
    ensures
        a == b,
    decreases inlines.len(),
{
    if inlines.len() > 0 {
        let (a1, a2) = choose|a1: Seq<char>, a2: Seq<char>|
            a == a1 + a2 && may_render_inline(inlines[0], a1) && may_render_inlines(
                inlines.drop_first(),
                a2,
            );
        let (b1, b2) = choose|b1: Seq<char>, b2: Seq<char>|
            b == b1 + b2 && may_render_inline(inlines[0], b1) && may_render_inlines(
                inlines.drop_first(),
                b2,
            );
        assert(inline_is_literal(inlines[0]));
        match inlines[0] {
            Inline::Bold(_) => {},
            Inline::Node(node) => {
                lemma_literal_node_unique(node, a1, b1);
            },
        }
        assert(a1 == b1);
        assert(forall|k: int|
            0 <= k < inlines.drop_first().len() ==> inline_is_literal(
                #[trigger] inlines.drop_first()[k],
            ));
        lemma_literal_inlines_unique(inlines.drop_first(), a2, b2);
    }
}

/// Law, first half: a literal block has exactly one possible evaluation — its
/// detected marker and a single possible text.
pub proof fn lemma_literal_block_unique(b: Block, t1: Seq<char>, t2: Seq<char>)
    requires
        block_is_literal(b),
        may_render_block(b, t1),
        may_render_block(b, t2),
    ensures
        t1 == t2,
{
    if block_marker(b) is Some {
        let rest1 = choose|rest: Seq<char>|
            may_render_inlines(b.inlines@.skip(2), rest) && t1 == trim_spec(marker_tail(b) + rest);
        let rest2 = choose|rest: Seq<char>|
            may_render_inlines(b.inlines@.skip(2), rest) && t2 == trim_spec(marker_tail(b) + rest);
        assert(forall|k: int|
            0 <= k < b.inlines@.skip(2).len() ==> inline_is_literal(
                #[trigger] b.inlines@.skip(2)[k],
            ));
        lemma_literal_inlines_unique(b.inlines@.skip(2), rest1, rest2);
    } else {
        let raw1 = choose|raw: Seq<char>|
            may_render_inlines(b.inlines@, raw) && t1 == trim_spec(raw);
        let raw2 = choose|raw: Seq<char>|
            may_render_inlines(b.inlines@, raw) && t2 == trim_spec(raw);
        lemma_literal_inlines_unique(b.inlines@, raw1, raw2);
    }
}

/// Law: evaluating the same document twice yields the identical message
/// sequence when the document is literal — free of expressions and component
/// tags, whose values come from the outside evaluator and of which the
/// evaluator's contracts promise no reproducibility.  Any two faithful
/// per-block evaluations of such a document are equal, and so are the message
/// sequences their segmentations produce.
/// Law, first half: any two faithful per-block evaluations of a literal
/// document are equal.
pub proof fn lemma_literal_pieces_unique(
    blocks: Seq<Block>,
    first_pieces: Seq<(Option<Role>, Seq<char>)>,
    second_pieces: Seq<(Option<Role>, Seq<char>)>,
)
    requires
        document_is_literal(blocks),
        blocks_render(blocks, first_pieces),
        blocks_render(blocks, second_pieces),
    ensures
        first_pieces == second_pieces,
{
    assert forall|k: int|
        0 <= k < blocks.len() implies #[trigger] first_pieces[k] == second_pieces[k] by {
        assert(block_is_literal(blocks[k]));
        lemma_literal_block_unique(blocks[k], first_pieces[k].1, second_pieces[k].1);
        assert(first_pieces[k].0 == block_marker(blocks[k]));
        assert(second_pieces[k].0 == block_marker(blocks[k]));
        assert(first_pieces[k] == (first_pieces[k].0, first_pieces[k].1));
        assert(second_pieces[k] == (second_pieces[k].0, second_pieces[k].1));
    }
    assert(first_pieces =~= second_pieces);
}

/// Law: evaluating the same document twice yields the identical message
/// sequence when the document is literal — free of expressions and component
/// tags, whose values come from the outside evaluator and of which the
/// evaluator's contracts promise no reproducibility.  Any two faithful
/// per-block evaluations of such a document are equal, and so are the message
/// sequences their segmentations produce.
pub proof fn lemma_literal_document_idempotent(
    blocks: Seq<Block>,
    first_pieces: Seq<(Option<Role>, Seq<char>)>,
    second_pieces: Seq<(Option<Role>, Seq<char>)>,
    first_messages: Seq<(Role, Seq<char>)>,
    second_messages: Seq<(Role, Seq<char>)>,
)
    requires
        document_is_literal(blocks),
        blocks_render(blocks, first_pieces),
        blocks_render(blocks, second_pieces),
        spec_segment(first_pieces, None, Seq::empty(), Seq::empty()) == Ok::<_, EvalError>(
            first_messages,
        ),
        spec_segment(second_pieces, None, Seq::empty(), Seq::empty()) == Ok::<_, EvalError>(
            second_messages,
        ),
    ensures
        first_pieces == second_pieces,
        first_messages == second_messages,
{
    lemma_literal_pieces_unique(blocks, first_pieces, second_pieces);
}

} // verus!
