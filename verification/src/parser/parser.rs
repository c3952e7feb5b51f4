use vstd::prelude::*;

verus! {

use crate::document::{element_count, rows_of, Document, DocumentModel, empty_document, NodeModel};
use crate::parser::state::State;
use crate::parser::tokenizer::{
    initial_model, lemma_closing_name_extends, lemma_opening_name_extends,
    lemma_read_text_extends, lemma_single_step, lemma_tokens_from_concat, lemma_tokens_from_len,
    lemma_tokens_from_shapes, opening_tag_count, start_model, token_shape_ok, tokenizer_run,
    tokenizer_step, tokens_from, tokens_of, views_of, TokenKind, TokenModel, Tokenizer,
    TokenizerModel,
};
use crate::tag::{tag_of_name, Tag};

/// The parent link handed to the node about to be appended: the top of the
/// scope stack points one past the nearest open element, so its predecessor
/// is that element's index; an empty stack means top level, the sentinel -1.
pub open spec fn scope_parent(scopes: Seq<i32>) -> i32 {
    if scopes.len() == 0 {
        -1i32
    } else {
        (scopes.last() - 1) as i32
    }
}

/// One token consumed by the tree builder. A closing tag pops the scope
/// stack (a no-op when it is empty); a text token appends a text node; an
/// opening tag appends an element node and opens its scope.
pub open spec fn parse_step(d: DocumentModel, scopes: Seq<i32>, t: TokenModel) -> (
    DocumentModel,
    Seq<i32>,
) {
    if t.kind == TokenKind::ClosingTag {
        (d, if scopes.len() > 0 {
            scopes.drop_last()
        } else {
            scopes
        })
    } else if t.kind == TokenKind::Text {
        (
            DocumentModel {
                tags: d.tags.push(Tag::Text),
                texts: d.texts.push(t.content),
                parents: d.parents.push(scope_parent(scopes)),
            },
            scopes,
        )
    } else {
        (
            DocumentModel {
                tags: d.tags.push(tag_of_name(t.content)),
                texts: d.texts.push(Seq::empty()),
                parents: d.parents.push(scope_parent(scopes)),
            },
            scopes.push((d.tags.len() + 1) as i32),
        )
    }
}

/// The tree builder as a fold over the token sequence, carrying the
/// document built so far and the scope stack of open elements.
pub open spec fn parse_tokens(d: DocumentModel, scopes: Seq<i32>, toks: Seq<TokenModel>) -> (
    DocumentModel,
    Seq<i32>,
)
    decreases toks.len(),
{
    if toks.len() == 0 {
        (d, scopes)
    } else {
        let prev = parse_tokens(d, scopes, toks.drop_last());
        parse_step(prev.0, prev.1, toks.last())
    }
}

/// The document a whole input parses to: tokenize, then fold the tree
/// builder over the tokens, starting from an empty document and an empty
/// scope stack.
pub open spec fn document_of(s: Seq<char>) -> DocumentModel {
    parse_tokens(empty_document(), Seq::empty(), tokens_of(s)).0
}

/// The tree builder keeps the document well formed: the columns stay
/// aligned, at most one node is appended per token, every stack entry
/// points one past an existing node, and every parent link is the sentinel
/// -1 or the index of a node that strictly precedes its child.
pub proof fn lemma_parse_tokens_wf(d: DocumentModel, scopes: Seq<i32>, toks: Seq<TokenModel>)
    requires
        d.wf(),
        d.tags.len() + toks.len() <= i32::MAX as int,
        forall|j: int| 0 <= j < scopes.len() ==> 1 <= #[trigger] scopes[j] <= d.tags.len() as int,
        forall|i: int| 0 <= i < d.parents.len() ==> -1 <= #[trigger] d.parents[i] < i,
    ensures
        parse_tokens(d, scopes, toks).0.wf(),
        d.tags.len() <= parse_tokens(d, scopes, toks).0.tags.len(),
        parse_tokens(d, scopes, toks).0.tags.len() <= d.tags.len() + toks.len(),
        forall|j: int|
            0 <= j < parse_tokens(d, scopes, toks).1.len() ==> 1 <= #[trigger] parse_tokens(
                d,
                scopes,
                toks,
            ).1[j] <= parse_tokens(d, scopes, toks).0.tags.len() as int,
        forall|i: int|
            0 <= i < parse_tokens(d, scopes, toks).0.parents.len() ==> -1 <= #[trigger] parse_tokens(
                d,
                scopes,
                toks,
            ).0.parents[i] < i,
    decreases toks.len(),
{
    if toks.len() > 0 {
        lemma_parse_tokens_wf(d, scopes, toks.drop_last());
    }
}

/// Parent links always point backwards: in the document parsed from any
/// input, a node's parent is the sentinel -1 or the index of an earlier
/// node, so a walk along parent links always terminates at top level.
pub proof fn lemma_parent_precedes_child(s: Seq<char>)
    requires
        s.len() <= i32::MAX as int,
    ensures
        document_of(s).wf(),
        forall|i: int|
            0 <= i < document_of(s).parents.len() ==> -1 <= #[trigger] document_of(s).parents[i]
                < i,
{
    lemma_tokens_from_len(initial_model(), s);
    lemma_parse_tokens_wf(empty_document(), Seq::empty(), tokens_of(s));
}

/// Over well-shaped tokens (opening tags never empty-named), the tree
/// builder appends exactly one element node per opening-tag token and a
/// text node for everything else it appends.
proof fn lemma_parse_tokens_element_count(
    d: DocumentModel,
    scopes: Seq<i32>,
    toks: Seq<TokenModel>,
)
    requires
        forall|i: int| 0 <= i < toks.len() ==> token_shape_ok(#[trigger] toks[i]),
    ensures
        element_count(parse_tokens(d, scopes, toks).0.tags) == element_count(d.tags)
            + opening_tag_count(toks),
    decreases toks.len(),
{
    if toks.len() > 0 {
        assert forall|i: int| 0 <= i < toks.drop_last().len() implies token_shape_ok(
            #[trigger] toks.drop_last()[i],
        ) by {
            assert(toks.drop_last()[i] == toks[i]);
        }
        lemma_parse_tokens_element_count(d, scopes, toks.drop_last());
        let prev = parse_tokens(d, scopes, toks.drop_last());
        let t = toks.last();
        if t.kind == TokenKind::ClosingTag {
        } else if t.kind == TokenKind::Text {
            let tags2 = prev.0.tags.push(Tag::Text);
            assert(tags2.drop_last() =~= prev.0.tags);
            assert(tags2.last() == Tag::Text);
        } else {
            assert(token_shape_ok(t));
            reveal_strlit("");
            assert(t.content.len() >= 1);
            assert(t.content != ""@);
            assert(tag_of_name(t.content) != Tag::Text);
            let tags2 = prev.0.tags.push(tag_of_name(t.content));
            assert(tags2.drop_last() =~= prev.0.tags);
        }
    }
}

/// For every input, however ill-formed, the parsed document holds exactly
/// one element node per opening-tag token in the input's token stream.
pub proof fn lemma_element_count(s: Seq<char>)
    ensures
        element_count(document_of(s).tags) == opening_tag_count(tokens_of(s)),
{
    lemma_tokens_from_shapes(initial_model(), s);
    lemma_parse_tokens_element_count(empty_document(), Seq::empty(), tokens_of(s));
}

/// A document fragment made only of balanced, non-overlapping elements and
/// text runs: an element with the forest of its children, or a text run. A
/// sequence of these is a forest, the shape of every well-formed input.
pub enum MarkupTree {
    Element { name: Seq<char>, children: Seq<MarkupTree> },
    Text { text: Seq<char> },
}

/// The token stream a tree stands for: its opening tag, its children's
/// streams in order, its closing tag; a text run is a single text token.
pub open spec fn tree_tokens(t: MarkupTree) -> Seq<TokenModel>
    decreases t,
{
    match t {
        MarkupTree::Text { text } => seq![TokenModel { kind: TokenKind::Text, content: text }],
        MarkupTree::Element { name, children } => seq![
            TokenModel { kind: TokenKind::OpeningTag, content: name },
        ] + forest_tokens(children) + seq![
            TokenModel { kind: TokenKind::ClosingTag, content: name },
        ],
    }
}

/// The token stream of a forest: its trees' streams, in order.
pub open spec fn forest_tokens(f: Seq<MarkupTree>) -> Seq<TokenModel>
    decreases f,
{
    if f.len() == 0 {
        Seq::empty()
    } else {
        tree_tokens(f[0]) + forest_tokens(f.skip(1))
    }
}

/// How many nodes a tree contributes to the document.
pub open spec fn tree_node_count(t: MarkupTree) -> nat
    decreases t,
{
    match t {
        MarkupTree::Text { text } => 1,
        MarkupTree::Element { name, children } => 1 + forest_node_count(children),
    }
}

/// How many nodes a forest contributes to the document.
pub open spec fn forest_node_count(f: Seq<MarkupTree>) -> nat
    decreases f,
{
    if f.len() == 0 {
        0
    } else {
        tree_node_count(f[0]) + forest_node_count(f.skip(1))
    }
}

/// The node records a tree ought to produce when its first node lands at
/// index `at` under the given parent link: the element first, then its
/// children in pre-order, each child linked to the element itself.
pub open spec fn tree_nodes(t: MarkupTree, parent: i32, at: int) -> Seq<NodeModel>
    decreases t,
{
    match t {
        MarkupTree::Text { text } => seq![NodeModel { tag: Tag::Text, text, parent }],
        MarkupTree::Element { name, children } => seq![
            NodeModel { tag: tag_of_name(name), text: Seq::empty(), parent },
        ] + forest_nodes(children, at as i32, at + 1),
    }
}

/// The node records of a forest, its trees laid out one after another.
pub open spec fn forest_nodes(f: Seq<MarkupTree>, parent: i32, at: int) -> Seq<NodeModel>
    decreases f,
{
    if f.len() == 0 {
        Seq::empty()
    } else {
        tree_nodes(f[0], parent, at) + forest_nodes(
            f.skip(1),
            parent,
            at + tree_node_count(f[0]),
        )
    }
}

proof fn lemma_tree_nodes_len(t: MarkupTree, parent: i32, at: int)
    ensures
        tree_nodes(t, parent, at).len() == tree_node_count(t),
    decreases t,
{
    match t {
        MarkupTree::Text { text } => {},
        MarkupTree::Element { name, children } => {
            lemma_forest_nodes_len(children, at as i32, at + 1);
        },
    }
}

proof fn lemma_forest_nodes_len(f: Seq<MarkupTree>, parent: i32, at: int)
    ensures
        forest_nodes(f, parent, at).len() == forest_node_count(f),
    decreases f,
{
    if f.len() > 0 {
        lemma_tree_nodes_len(f[0], parent, at);
        lemma_forest_nodes_len(f.skip(1), parent, at + tree_node_count(f[0]));
    }
}

/// The markup text of an element's body, after its opening `<`: the name,
/// the closing chevron, the children's text, then the closing tag.
pub open spec fn element_body(name: Seq<char>, children: Seq<MarkupTree>) -> Seq<char>
    decreases children, 1int,
{
    name + seq!['>'] + render_forest(children) + seq!['<'] + seq!['/'] + name + seq!['>']
}

/// The markup text a tree renders to.
pub open spec fn render_tree(t: MarkupTree) -> Seq<char>
    decreases t, 0int,
{
    match t {
        MarkupTree::Text { text } => text,
        MarkupTree::Element { name, children } => seq!['<'] + element_body(name, children),
    }
}

/// The markup text of a forest: its trees' texts, in order.
pub open spec fn render_forest(f: Seq<MarkupTree>) -> Seq<char>
    decreases f, 0int,
{
    if f.len() == 0 {
        Seq::empty()
    } else {
        render_tree(f[0]) + render_forest(f.skip(1))
    }
}

/// A character that can stand in a tag name without ending or redirecting
/// name reading.
pub open spec fn name_char_ok(c: char) -> bool {
    c != '<' && c != '>' && c != '/' && c != ' ' && c != '!'
}

/// A tag name the tokenizer reads back exactly as written.
pub open spec fn name_ok(name: Seq<char>) -> bool {
    name.len() >= 1 && forall|i: int| 0 <= i < name.len() ==> name_char_ok(#[trigger] name[i])
}

/// A text run the tokenizer reads back exactly as written: non-empty and
/// free of `<`.
pub open spec fn text_ok(text: Seq<char>) -> bool {
    text.len() >= 1 && forall|i: int| 0 <= i < text.len() ==> #[trigger] text[i] != '<'
}

/// A tree whose rendering tokenizes back to its own token stream.
pub open spec fn wf_tree(t: MarkupTree) -> bool
    decreases t, 0int,
{
    match t {
        MarkupTree::Text { text } => text_ok(text),
        MarkupTree::Element { name, children } => name_ok(name) && wf_forest(children),
    }
}

/// A forest whose rendering tokenizes back to its own token stream: every
/// tree well formed and no two text runs adjacent (they would merge into
/// one token).
pub open spec fn wf_forest(f: Seq<MarkupTree>) -> bool
    decreases f, 1int,
{
    f.len() == 0 || (wf_tree(f[0]) && wf_forest(f.skip(1)) && ((f[0] is Text) ==> f.len() == 1
        || f[1] is Element))
}

/// The payload of a text run; empty for an element.
pub open spec fn tree_text(t: MarkupTree) -> Seq<char> {
    match t {
        MarkupTree::Text { text } => text,
        MarkupTree::Element { name: _, children: _ } => Seq::empty(),
    }
}

/// Whether the forest's last tree is a text run: its token is then still
/// pending when the rendering ends, waiting for the next `<`.
pub open spec fn ends_with_text(f: Seq<MarkupTree>) -> bool {
    f.len() > 0 && f.last() is Text
}

/// Folding the tree builder over a concatenation is folding it over the
/// first part, then over the second from where the first left off.
proof fn lemma_parse_tokens_concat(
    d: DocumentModel,
    scopes: Seq<i32>,
    a: Seq<TokenModel>,
    b: Seq<TokenModel>,
)
    ensures
        parse_tokens(d, scopes, a + b) == parse_tokens(
            parse_tokens(d, scopes, a).0,
            parse_tokens(d, scopes, a).1,
            b,
        ),
    decreases b.len(),
{
    if b.len() == 0 {
        assert(a + b =~= a);
    } else {
        lemma_parse_tokens_concat(d, scopes, a, b.drop_last());
        assert((a + b).drop_last() =~= a + b.drop_last());
        assert((a + b).last() == b.last());
    }
}

/// Replaying one tree's tokens appends exactly that tree's nodes, linked to
/// the top of the incoming scope stack, and hands the stack back unchanged.
proof fn lemma_parse_tree(t: MarkupTree, d: DocumentModel, scopes: Seq<i32>)
    requires
        d.wf(),
        d.tags.len() + tree_node_count(t) <= i32::MAX as int,
        forall|j: int| 0 <= j < scopes.len() ==> 1 <= #[trigger] scopes[j] <= d.tags.len() as int,
    ensures
        parse_tokens(d, scopes, tree_tokens(t)).1 == scopes,
        parse_tokens(d, scopes, tree_tokens(t)).0.wf(),
        rows_of(parse_tokens(d, scopes, tree_tokens(t)).0) == rows_of(d) + tree_nodes(
            t,
            scope_parent(scopes),
            d.tags.len() as int,
        ),
    decreases t,
{
    match t {
        MarkupTree::Text { text } => {
            reveal_with_fuel(parse_tokens, 2);
            let tok = TokenModel { kind: TokenKind::Text, content: text };
            let toks = seq![tok];
            assert(toks.drop_last() =~= Seq::<TokenModel>::empty());
            assert(toks.last() == tok);
            assert(parse_tokens(d, scopes, toks) == parse_step(d, scopes, tok));
            let d2 = parse_tokens(d, scopes, toks).0;
            assert(rows_of(d2) =~= rows_of(d) + tree_nodes(
                t,
                scope_parent(scopes),
                d.tags.len() as int,
            ));
        },
        MarkupTree::Element { name, children } => {
            let open_tok = TokenModel { kind: TokenKind::OpeningTag, content: name };
            let close_tok = TokenModel { kind: TokenKind::ClosingTag, content: name };
            let toks = tree_tokens(t);
            let a = seq![open_tok];
            let mid = forest_tokens(children);
            assert(toks =~= (a + mid) + seq![close_tok]);
            lemma_parse_tokens_concat(d, scopes, a + mid, seq![close_tok]);
            lemma_parse_tokens_concat(d, scopes, a, mid);

            reveal_with_fuel(parse_tokens, 2);
            assert(a.drop_last() =~= Seq::<TokenModel>::empty());
            assert(a.last() == open_tok);
            assert(parse_tokens(d, scopes, a) == parse_step(d, scopes, open_tok));
            let p1 = parse_tokens(d, scopes, a);
            let d1 = p1.0;
            let sc1 = p1.1;
            assert(d1.tags == d.tags.push(tag_of_name(name)));
            assert(sc1 == scopes.push((d.tags.len() + 1) as i32));
            assert(d.tags.len() + 1 <= i32::MAX as int);
            assert(rows_of(d1) =~= rows_of(d) + seq![
                NodeModel {
                    tag: tag_of_name(name),
                    text: Seq::empty(),
                    parent: scope_parent(scopes),
                },
            ]);
            assert forall|j: int| 0 <= j < sc1.len() implies 1 <= #[trigger] sc1[j]
                <= d1.tags.len() as int by {
                if j < scopes.len() {
                    assert(sc1[j] == scopes[j]);
                }
            }
            lemma_parse_forest(children, d1, sc1);
            let p2 = parse_tokens(d1, sc1, mid);
            let d2 = p2.0;
            assert(p2.1 == sc1);
            lemma_forest_nodes_len(children, scope_parent(sc1), d1.tags.len() as int);
            assert(scope_parent(sc1) == d.tags.len() as i32);

            let p3 = parse_tokens(d, scopes, toks);
            let single = seq![close_tok];
            assert(single.drop_last() =~= Seq::<TokenModel>::empty());
            assert(single.last() == close_tok);
            assert(parse_tokens(d2, sc1, single) == parse_step(d2, sc1, close_tok));
            assert(p3 == parse_tokens(d2, sc1, single));
            assert(p3 == parse_step(d2, sc1, close_tok));
            assert(sc1.len() > 0);
            assert(p3.1 =~= scopes);
            assert(rows_of(p3.0) =~= rows_of(d) + tree_nodes(
                t,
                scope_parent(scopes),
                d.tags.len() as int,
            ));
        },
    }
}

/// Replaying a forest's tokens appends exactly its nodes in pre-order, all
/// top-level trees linked to the top of the incoming scope stack, and hands
/// the stack back unchanged.
proof fn lemma_parse_forest(f: Seq<MarkupTree>, d: DocumentModel, scopes: Seq<i32>)
    requires
        d.wf(),
        d.tags.len() + forest_node_count(f) <= i32::MAX as int,
        forall|j: int| 0 <= j < scopes.len() ==> 1 <= #[trigger] scopes[j] <= d.tags.len() as int,
    ensures
        parse_tokens(d, scopes, forest_tokens(f)).1 == scopes,
        parse_tokens(d, scopes, forest_tokens(f)).0.wf(),
        rows_of(parse_tokens(d, scopes, forest_tokens(f)).0) == rows_of(d) + forest_nodes(
            f,
            scope_parent(scopes),
            d.tags.len() as int,
        ),
    decreases f,
{
    if f.len() == 0 {
        assert(rows_of(d) + forest_nodes(f, scope_parent(scopes), d.tags.len() as int) =~= rows_of(
            d,
        ));
    } else {
        let a = tree_tokens(f[0]);
        let b = forest_tokens(f.skip(1));
        lemma_parse_tokens_concat(d, scopes, a, b);
        lemma_parse_tree(f[0], d, scopes);
        let p1 = parse_tokens(d, scopes, a);
        let d1 = p1.0;
        lemma_tree_nodes_len(f[0], scope_parent(scopes), d.tags.len() as int);
        assert(rows_of(d1).len() == d1.tags.len());
        assert(rows_of(d1).len() == rows_of(d).len() + tree_nodes(
            f[0],
            scope_parent(scopes),
            d.tags.len() as int,
        ).len());
        assert(d1.tags.len() == d.tags.len() + tree_node_count(f[0]));
        lemma_parse_forest(f.skip(1), d1, scopes);
        assert(rows_of(parse_tokens(d, scopes, forest_tokens(f)).0) =~= rows_of(d)
            + forest_nodes(f, scope_parent(scopes), d.tags.len() as int));
    }
}

/// For every input made only of balanced, non-overlapping tags and text —
/// any forest — parsing its token stream reproduces that nesting exactly:
/// the document lists the forest's nodes in pre-order, each node's parent
/// link the index of its enclosing element (the sentinel -1 at top level),
/// and the scope stack comes back empty.
pub proof fn lemma_balanced_round_trip(f: Seq<MarkupTree>)
    requires
        forest_node_count(f) <= i32::MAX as int,
    ensures
        parse_tokens(empty_document(), Seq::empty(), forest_tokens(f)).1 == Seq::<i32>::empty(),
        rows_of(parse_tokens(empty_document(), Seq::empty(), forest_tokens(f)).0) == forest_nodes(
            f,
            -1i32,
            0,
        ),
{
    lemma_parse_forest(f, empty_document(), Seq::empty());
    assert(rows_of(empty_document()) + forest_nodes(f, -1i32, 0) =~= forest_nodes(f, -1i32, 0));
}

/// Reading an element's body from the state just after its opening `<`
/// emits exactly the element's token stream and leaves the machine reading
/// content again, with nothing pending.
proof fn lemma_element_body(name: Seq<char>, children: Seq<MarkupTree>, m: TokenizerModel)
    requires
        name_ok(name),
        wf_forest(children),
        m.state == State::ReadTagName,
        !m.found,
    ensures
        tokens_from(m, element_body(name, children)) == tree_tokens(
            MarkupTree::Element { name, children },
        ),
        tokenizer_run(m, element_body(name, children)).state == State::ReadContent,
        !tokenizer_run(m, element_body(name, children)).found,
    decreases children, 1int,
{
    let body = element_body(name, children);
    let gt = seq!['>'];
    let lt = seq!['<'];
    let sl = seq!['/'];
    let mid = render_forest(children);

    let r1 = gt + (mid + (lt + (sl + (name + gt))));
    assert(body =~= name + r1);
    let r2 = mid + (lt + (sl + (name + gt)));
    let r3 = lt + (sl + (name + gt));
    let r4 = sl + (name + gt);
    let r5 = name + gt;

    // The name: its first character starts an opening-tag token, the rest
    // accumulate into it.
    assert(name =~= seq![name[0]] + name.skip(1));
    assert(name_char_ok(name[0]));
    lemma_single_step(m, name[0]);
    let m1 = tokenizer_step(m, name[0]);
    assert(tokens_from(m, seq![name[0]]) =~= Seq::<TokenModel>::empty());
    lemma_tokens_from_concat(m, seq![name[0]], name.skip(1));
    assert forall|i: int| 0 <= i < name.skip(1).len() implies #[trigger] name.skip(1)[i] != '>'
        && name.skip(1)[i] != ' ' by {
        assert(name.skip(1)[i] == name[i + 1]);
        assert(name_char_ok(name[i + 1]));
    }
    lemma_opening_name_extends(m1, name.skip(1));
    let mn = tokenizer_run(m, name);
    assert(mn == tokenizer_run(m1, name.skip(1)));
    assert(mn.token.content =~= name);
    assert(tokens_from(m, name) =~= Seq::<TokenModel>::empty());

    // `>`: the finished opening-tag token is emitted and the slot reset.
    let open_tok = TokenModel { kind: TokenKind::OpeningTag, content: name };
    lemma_single_step(mn, '>');
    let mc = tokenizer_run(mn, gt);
    assert(tokens_from(mn, gt) =~= seq![open_tok]);
    assert(mc.state == State::ReadContent);
    assert(!mc.found);

    // The children's rendering.
    lemma_render_forest(children, mc);
    let mf = tokenizer_run(mc, mid);

    // `<`: opens the closing tag, flushing a pending text token if the
    // children ended in one.
    lemma_single_step(mf, '<');
    let mo = tokenizer_run(mf, lt);
    if ends_with_text(children) {
        assert(tokens_from(mc, mid).push(mf.token) =~= forest_tokens(children));
        assert(tokens_from(mc, mid) + tokens_from(mf, lt) =~= forest_tokens(children));
    } else {
        assert(tokens_from(mf, lt) =~= Seq::<TokenModel>::empty());
        assert(tokens_from(mc, mid) + tokens_from(mf, lt) =~= forest_tokens(children));
    }
    assert(mo.state == State::ReadTagName);
    assert(!mo.found);

    // `/`: the slot becomes an empty closing-tag token.
    lemma_single_step(mo, '/');
    let ms = tokenizer_run(mo, sl);
    assert(tokens_from(mo, sl) =~= Seq::<TokenModel>::empty());
    assert(ms.state == State::ReadClosingTagName);
    assert(ms.token.content =~= Seq::<char>::empty());

    // The name again, then `>`: the closing-tag token is emitted.
    assert forall|i: int| 0 <= i < name.len() implies #[trigger] name[i] != '>' by {
        assert(name_char_ok(name[i]));
    }
    lemma_closing_name_extends(ms, name);
    let mn2 = tokenizer_run(ms, name);
    assert(mn2.token.content =~= name);
    let close_tok = TokenModel { kind: TokenKind::ClosingTag, content: name };
    lemma_single_step(mn2, '>');
    let mz = tokenizer_run(mn2, gt);
    assert(tokens_from(mn2, gt) =~= seq![close_tok]);
    assert(mz.state == State::ReadContent);
    assert(!mz.found);

    // Stitch the pieces together, front to back.
    lemma_tokens_from_concat(m, name, r1);
    lemma_tokens_from_concat(mn, gt, r2);
    lemma_tokens_from_concat(mc, mid, r3);
    lemma_tokens_from_concat(mf, lt, r4);
    lemma_tokens_from_concat(mo, sl, r5);
    lemma_tokens_from_concat(ms, name, gt);
    assert(tokenizer_run(m, body) == mz);
    assert(tokens_from(m, body) =~= seq![open_tok] + forest_tokens(children) + seq![close_tok]);
    assert(tree_tokens(MarkupTree::Element { name, children }) =~= seq![open_tok]
        + forest_tokens(children) + seq![close_tok]);
}

/// Reading a well-formed forest's rendering from the content state emits
/// exactly the forest's token stream, except that a final text run stays
/// pending in the slot, complete, waiting for the next `<`.
proof fn lemma_render_forest(f: Seq<MarkupTree>, m: TokenizerModel)
    requires
        wf_forest(f),
        m.state == State::ReadContent,
        !m.found,
    ensures
        !ends_with_text(f) ==> tokens_from(m, render_forest(f)) == forest_tokens(f)
            && tokenizer_run(m, render_forest(f)).state == State::ReadContent && !tokenizer_run(
            m,
            render_forest(f),
        ).found,
        ends_with_text(f) ==> tokens_from(m, render_forest(f)).push(
            tokenizer_run(m, render_forest(f)).token,
        ) == forest_tokens(f) && tokenizer_run(m, render_forest(f)).state == State::ReadText
            && !tokenizer_run(m, render_forest(f)).found && tokenizer_run(
            m,
            render_forest(f),
        ).token.kind == TokenKind::Text,
    decreases f, 0int,
{
    reveal_with_fuel(forest_tokens, 3);
    reveal_with_fuel(render_forest, 3);
    reveal_with_fuel(wf_forest, 3);
    reveal_with_fuel(forest_node_count, 3);
    if f.len() == 0 {
        assert(tokens_from(m, render_forest(f)) =~= forest_tokens(f));
    } else {
        match f[0] {
            MarkupTree::Element { name, children } => {
                let body = element_body(name, children);
                let rest = render_forest(f.skip(1));
                assert(f[0] == (MarkupTree::Element { name, children }));
                assert(wf_tree(f[0]));
                assert(render_tree(f[0]) == seq!['<'] + body);
                assert(render_forest(f) == render_tree(f[0]) + rest);
                assert(render_forest(f) =~= seq!['<'] + (body + rest));

                lemma_single_step(m, '<');
                let m1 = tokenizer_run(m, seq!['<']);
                assert(tokens_from(m, seq!['<']) =~= Seq::<TokenModel>::empty());
                assert(m1.state == State::ReadTagName);

                lemma_element_body(name, children, m1);
                let m2 = tokenizer_run(m1, body);
                lemma_render_forest(f.skip(1), m2);

                lemma_tokens_from_concat(m, seq!['<'], body + rest);
                lemma_tokens_from_concat(m1, body, rest);
                assert(tokens_from(m, render_forest(f)) =~= tree_tokens(f[0]) + tokens_from(
                    m2,
                    rest,
                ));
                assert(tokenizer_run(m, render_forest(f)) == tokenizer_run(m2, rest));
                if f.skip(1).len() == 0 {
                    assert(!ends_with_text(f));
                    assert(tokens_from(m, render_forest(f)) =~= forest_tokens(f));
                } else {
                    assert(f.last() == f.skip(1).last());
                    assert(ends_with_text(f) == ends_with_text(f.skip(1)));
                    if ends_with_text(f) {
                        assert((tree_tokens(f[0]) + tokens_from(m2, rest)).push(
                            tokenizer_run(m2, rest).token,
                        ) =~= tree_tokens(f[0]) + tokens_from(m2, rest).push(
                            tokenizer_run(m2, rest).token,
                        ));
                        assert(tokens_from(m, render_forest(f)).push(
                            tokenizer_run(m, render_forest(f)).token,
                        ) =~= forest_tokens(f));
                    } else {
                        assert(tokens_from(m, render_forest(f)) =~= forest_tokens(f));
                    }
                }
            },
            MarkupTree::Text { text } => {
                let text_tok = TokenModel { kind: TokenKind::Text, content: text };
                let rest = render_forest(f.skip(1));
                assert(f[0] == (MarkupTree::Text { text }));
                assert(wf_tree(f[0]));
                assert(text_ok(text));
                assert(render_tree(f[0]) == text);
                assert(render_forest(f) =~= text + rest);

                // The text run accumulates without emitting.
                assert(text =~= seq![text[0]] + text.skip(1));
                lemma_single_step(m, text[0]);
                let m1 = tokenizer_step(m, text[0]);
                assert(m1.state == State::ReadText);
                assert(m1.token.kind == TokenKind::Text);
                assert forall|i: int| 0 <= i < text.skip(1).len() implies #[trigger] text.skip(
                    1,
                )[i] != '<' by {
                    assert(text.skip(1)[i] == text[i + 1]);
                }
                lemma_read_text_extends(m1, text.skip(1));
                lemma_tokens_from_concat(m, seq![text[0]], text.skip(1));
                let mx = tokenizer_run(m, text);
                assert(tokens_from(m, text) =~= Seq::<TokenModel>::empty());
                assert(mx.state == State::ReadText);
                assert(!mx.found);
                assert(mx.token.kind == TokenKind::Text);
                assert(mx.token.content =~= text);

                lemma_tokens_from_concat(m, text, rest);
                if f.skip(1).len() == 0 {
                    // The run stays pending: the forest ends in this text.
                    assert(rest =~= Seq::<char>::empty());
                    assert(render_forest(f) =~= text);
                    assert(ends_with_text(f));
                    assert(f.skip(1) =~= Seq::<MarkupTree>::empty());
                    assert(forest_tokens(f.skip(1)) =~= Seq::<TokenModel>::empty());
                    assert(tree_tokens(f[0]) =~= seq![text_tok]);
                    assert(forest_tokens(f) =~= seq![text_tok]);
                    assert(tokens_from(m, render_forest(f)).push(
                        tokenizer_run(m, render_forest(f)).token,
                    ) =~= forest_tokens(f));
                } else {
                    // A well-formed forest follows a text run with an
                    // element, whose `<` flushes the pending token.
                    assert(f[1] is Element);
                    assert(f.skip(1)[0] == f[1]);
                    let e = f.skip(1)[0];
                    match e {
                        MarkupTree::Element { name, children } => {
                            let body = element_body(name, children);
                            let rest2 = render_forest(f.skip(1).skip(1));
                            assert(f.skip(1).skip(1) =~= f.skip(2));
                            assert(f.skip(1).len() > 0);
                            assert(render_forest(f.skip(1)) == render_tree(f.skip(1)[0])
                                + render_forest(f.skip(1).skip(1)));
                            assert(render_tree(e) == seq!['<'] + body);
                            assert(rest =~= seq!['<'] + (body + rest2));

                            lemma_single_step(mx, '<');
                            let my = tokenizer_run(mx, seq!['<']);
                            assert(tokens_from(mx, seq!['<']) =~= seq![text_tok]);
                            assert(my.state == State::ReadTagName);
                            assert(!my.found);

                            assert(wf_forest(f.skip(1)));
                            assert(wf_tree(f.skip(1)[0]));
                            lemma_element_body(name, children, my);
                            let mz = tokenizer_run(my, body);

                            assert(wf_forest(f.skip(1).skip(1)));
                            lemma_render_forest(f.skip(2), mz);
                            assert(render_forest(f.skip(2)) == rest2);

                            lemma_tokens_from_concat(mx, seq!['<'], body + rest2);
                            lemma_tokens_from_concat(my, body, rest2);
                            assert(tokens_from(mx, rest) =~= seq![text_tok] + (tree_tokens(e)
                                + tokens_from(mz, rest2)));
                            assert(tokens_from(m, render_forest(f)) =~= seq![text_tok] + (
                            tree_tokens(e) + tokens_from(mz, rest2)));
                            assert(tokenizer_run(m, render_forest(f)) == tokenizer_run(mz, rest2));

                            assert(forest_tokens(f.skip(1)) =~= tree_tokens(e) + forest_tokens(
                                f.skip(2),
                            ));
                            assert(forest_tokens(f) =~= seq![text_tok] + (tree_tokens(e)
                                + forest_tokens(f.skip(2))));

                            if f.skip(2).len() == 0 {
                                assert(f.last() == f[1]);
                                assert(!ends_with_text(f));
                                assert(tokens_from(mz, rest2) =~= Seq::<TokenModel>::empty());
                                assert(tokens_from(m, render_forest(f)) =~= forest_tokens(f));
                            } else {
                                assert(f.last() == f.skip(2).last());
                                assert(ends_with_text(f) == ends_with_text(f.skip(2)));
                                if ends_with_text(f) {
                                    assert(tokens_from(m, render_forest(f)).push(
                                        tokenizer_run(m, render_forest(f)).token,
                                    ) =~= seq![text_tok] + (tree_tokens(e) + tokens_from(
                                        mz,
                                        rest2,
                                    ).push(tokenizer_run(mz, rest2).token)));
                                    assert(tokens_from(m, render_forest(f)).push(
                                        tokenizer_run(m, render_forest(f)).token,
                                    ) =~= forest_tokens(f));
                                } else {
                                    assert(tokens_from(m, render_forest(f)) =~= forest_tokens(f));
                                }
                            }
                        },
                        MarkupTree::Text { text: t2 } => {
                            assert(false);
                        },
                    }
                }
            },
        }
    }
}

/// Tokenizing the rendering of a well-formed forest that opens and closes
/// with an element gives back exactly the forest's token stream: the
/// tokenizer loses nothing and invents nothing on well-formed input.
pub proof fn lemma_tokenize_render(f: Seq<MarkupTree>)
    requires
        wf_forest(f),
        f.len() > 0 ==> f[0] is Element && f.last() is Element,
    ensures
        tokens_of(render_forest(f)) == forest_tokens(f),
{
    let s = render_forest(f);
    if f.len() == 0 {
        assert(s =~= Seq::<char>::empty());
        assert(tokens_of(s) =~= forest_tokens(f));
    } else {
        let mc = start_model(State::ReadContent);
        lemma_render_forest(f, mc);
        assert(!ends_with_text(f));
        // The input begins with the first element's `<`, on which the
        // initial state and the content state agree.
        match f[0] {
            MarkupTree::Element { name, children } => {
                assert(render_tree(f[0]) == seq!['<'] + element_body(name, children));
                assert(s =~= render_tree(f[0]) + render_forest(f.skip(1)));
                assert(s[0] == '<');
            },
            MarkupTree::Text { text } => {
                assert(false);
            },
        }
        assert(tokenizer_step(initial_model(), s[0]) == tokenizer_step(mc, s[0]));
        assert(tokens_from(initial_model(), s) =~= tokens_from(mc, s));
    }
}

/// The whole pipeline round-trips: parsing the rendering of any well-formed
/// document — balanced, non-overlapping tags and text, opening and closing
/// with an element — yields exactly that document's nodes in pre-order,
/// each parent link the index of the enclosing element.
pub proof fn lemma_markup_round_trip(f: Seq<MarkupTree>)
    requires
        wf_forest(f),
        f.len() > 0 ==> f[0] is Element && f.last() is Element,
        forest_node_count(f) <= i32::MAX as int,
    ensures
        rows_of(document_of(render_forest(f))) == forest_nodes(f, -1i32, 0),
{
    lemma_tokenize_render(f);
    lemma_balanced_round_trip(f);
}

/// Build the document for a markup string: tokenize it, then replay the
/// tokens through the scope stack, linking every appended node to the
/// nearest open element.
pub fn parse(content: &str) -> (document: Document)
    requires
        content@.len() <= i32::MAX as int,
    ensures
        document@ == document_of(content@),
{
    let mut document = Document::new();
    let mut scopes: Vec<i32> = Vec::new();
    let tokens = Tokenizer::get_tokens(content);
    let ghost toks = views_of(tokens@);

    proof {
        lemma_tokens_from_len(initial_model(), content@);
        assert(toks.take(0) =~= Seq::<TokenModel>::empty());
    }
    let mut idx: usize = 0;
    while idx < tokens.len()
        invariant
            toks == views_of(tokens@),
            toks.len() == tokens@.len(),
            toks.len() <= content@.len(),
            content@.len() <= i32::MAX as int,
            idx <= toks.len(),
            document@ == parse_tokens(empty_document(), Seq::empty(), toks.take(idx as int)).0,
            scopes@ == parse_tokens(empty_document(), Seq::empty(), toks.take(idx as int)).1,
            document@.wf(),
            document@.tags.len() <= idx,
            forall|j: int|
                0 <= j < scopes@.len() ==> 1 <= #[trigger] scopes@[j] <= document@.tags.len() as int,
        decreases tokens@.len() - idx,
    {
        let token = &tokens[idx];
        proof {
            assert(token@ == toks[idx as int]);
            assert(toks.take(idx as int + 1).drop_last() =~= toks.take(idx as int));
            assert(toks.take(idx as int + 1).last() == toks[idx as int]);
        }
        if token.is_closing_tag() {
            scopes.pop();
            proof {
                if scopes@.len() > 0 {
                    assert(scopes@ =~= parse_tokens(
                        empty_document(),
                        Seq::empty(),
                        toks.take(idx as int + 1),
                    ).1);
                }
            }
        } else {
            let parent_index: i32 = if scopes.len() > 0 {
                scopes[scopes.len() - 1] - 1
            } else {
                -1
            };
            if token.is_text() {
                document.push_text(token.content.as_str(), parent_index);
            } else {
                document.push_tag(token.content.as_str(), parent_index);
                scopes.push(document.get_last_node_index());
            }
        }
        idx = idx + 1;
    }
    proof {
        assert(toks.take(toks.len() as int) =~= toks);
    }
    document
}

} // verus!
