//! Helpers that every language's outline extraction uses: node texts, signatures, locations.
use vstd::prelude::*;

use crate::outline::{
    joined, location_from_span, opt_seq, span_owns_lines, texts_view, AstItem, AstItemKind,
    AstLocationRange,
};
use crate::syntax::SyntaxTree;
use crate::text::{push_all, string_of, trimmed, trimmed_range};

verus! {

/// The text of node `n` with surrounding white space trimmed.
pub open spec fn node_text_spec(tree: SyntaxTree, n: usize) -> Seq<char> {
    trimmed(tree.source@.subrange(tree.nodes@[n as int].start as int, tree.nodes@[n as int].end as int))
}

/// The trimmed text of the field child `field` of `n`.
pub fn child_text_by_field(tree: &SyntaxTree, n: usize, field: &str) -> (r: Option<Vec<char>>)
    requires
        tree.wf(),
        tree.valid_node(n),
    ensures
        match tree.field_child(n, field@) {
            Some(c) => r matches Some(t) && t@ == node_text_spec(*tree, c),
            None => r is None,
        },
{
    match tree.child_by_field(n, field) {
        Some(c) => Some(tree.trimmed_node_text(c)),
        None => None,
    }
}

/// `text`, or `<anonymous>` when there is none.
pub fn name_or_anonymous(text: Option<Vec<char>>) -> (r: Vec<char>)
    ensures
        r@ == match text {
            Some(t) => t@,
            None => "<anonymous>"@,
        },
{
    match text {
        Some(t) => t,
        None => crate::text::chars_of("<anonymous>"),
    }
}

/// The trimmed text of `n` up to the start of `body` (nothing when the body starts first), or
/// all of it when there is no body.
pub open spec fn signature_spec(tree: SyntaxTree, n: usize, body: Option<usize>) -> Seq<char> {
    match body {
        Some(b) => {
            let start = tree.nodes@[n as int].start;
            let stop = tree.nodes@[b as int].start;
            if start <= stop {
                trimmed(tree.source@.subrange(start as int, stop as int))
            } else {
                Seq::empty()
            }
        },
        None => node_text_spec(tree, n),
    }
}

/// The trimmed text of `n` up to the start of `body`, or all of it when there is no body.
pub fn signature_text_with_body(tree: &SyntaxTree, n: usize, body: Option<usize>) -> (r: Vec<char>)
    requires
        tree.wf(),
        tree.valid_node(n),
        body matches Some(b) ==> tree.valid_node(b),
    ensures
        r@ == signature_spec(*tree, n, body),
{
    match body {
        Some(b) => {
            let start = tree.nodes[n].start;
            let stop = tree.nodes[b].start;
            if start <= stop {
                trimmed_range(&tree.source, start, stop)
            } else {
                let r = trimmed_range(&tree.source, stop, stop);
                proof {
                    crate::text::lemma_trim_start_bounds(tree.source@.subrange(stop as int, stop as int));
                }
                r
            }
        },
        None => tree.trimmed_node_text(n),
    }
}

/// The trimmed text of `n` up to its `body` field.
pub fn signature_text(tree: &SyntaxTree, n: usize) -> (r: Vec<char>)
    requires
        tree.wf(),
        tree.valid_node(n),
    ensures
        r@ == signature_spec(*tree, n, tree.field_child(n, "body"@)),
{
    let body = tree.child_by_field(n, "body");
    signature_text_with_body(tree, n, body)
}

/// The lines of node `n`: from its first row to its last, one line further when the node ends
/// inside a line.
pub open spec fn node_lines(tree: SyntaxTree, n: usize, l: AstLocationRange) -> bool {
    let node = tree.nodes@[n as int];
    &&& l.start_line == node.start_row
    &&& (l.end_line == node.end_row + if node.end_column > 0 {
        1int
    } else {
        0int
    } || (node.end_row == usize::MAX && l.end_line == node.end_row))
}

/// Whether node `n` owns its boundary lines: only white space before it on its first line and
/// after it on its last.
pub open spec fn node_owns_lines(tree: SyntaxTree, n: usize) -> bool {
    let node = tree.nodes@[n as int];
    span_owns_lines(tree.source@, node.start as int, node.end as int, node.end_column as int)
}

/// `l` is the location of node `n`: its lines, edit-ready when the node owns them.
pub open spec fn node_location(tree: SyntaxTree, n: usize, l: AstLocationRange) -> bool {
    &&& node_lines(tree, n, l)
    &&& l.is_edit_ready == node_owns_lines(tree, n)
}

/// The text of the field child `field` of `n`, or `default` when there is none.
pub open spec fn field_text_or(tree: SyntaxTree, n: usize, field: Seq<char>, default: Seq<char>) -> Seq<
    char,
> {
    match tree.field_child(n, field) {
        Some(c) => node_text_spec(tree, c),
        None => default,
    }
}

/// The location of node `n`.
pub fn location_for_node(tree: &SyntaxTree, n: usize) -> (l: AstLocationRange)
    requires
        tree.wf(),
        tree.valid_node(n),
    ensures
        node_location(*tree, n, l),
{
    let node = &tree.nodes[n];
    location_from_span(&tree.source, node.start_row, node.end_row, node.end_column, node.start, node.end)
}

/// `prefix` followed by `name`.
pub fn prefixed(prefix: &str, name: &[char]) -> (r: Vec<char>)
    ensures
        r@ == prefix@ + name@,
{
    let mut r = crate::text::chars_of(prefix);
    push_all(&mut r, name);
    r
}

pub fn opt_string(v: Option<Vec<char>>) -> (r: Option<String>)
    ensures
        r.is_some() == v.is_some(),
        r matches Some(s) ==> (v matches Some(w) && s@ == w@),
{
    match v {
        Some(w) => Some(string_of(&w)),
        None => None,
    }
}

/// Fragments joined with `"\n"`, or nothing when there are none.
pub fn join_lines(fragments: &Vec<Vec<char>>) -> (r: Option<Vec<char>>)
    ensures
        r.is_some() == (fragments@.len() > 0),
        r matches Some(t) ==> t@ == joined(texts_view(fragments@), '\n'),
{
    if fragments.len() == 0 {
        return None;
    }
    let mut out: Vec<char> = Vec::new();
    let mut k: usize = 0;
    while k < fragments.len()
        invariant
            k <= fragments@.len(),
            out@ == joined(texts_view(fragments@.subrange(0, k as int)), '\n'),
        decreases fragments.len() - k,
    {
        proof {
            let next = texts_view(fragments@.subrange(0, k + 1));
            assert(next.drop_last() =~= texts_view(fragments@.subrange(0, k as int)));
            assert(next.last() == fragments@[k as int]@);
            if k == 0 {
                assert(next.len() == 1);
            }
        }
        let ghost before = out@;
        if k > 0 {
            out.push('\n');
        }
        push_all(&mut out, &fragments[k]);
        proof {
            if k == 0 {
                assert(out@ =~= fragments@[0]@);
            }
        }
        k = k + 1;
    }
    assert(fragments@.subrange(0, fragments@.len() as int) =~= fragments@);
    Some(out)
}

/// Reverses a list of fragments.
pub fn reversed(v: Vec<Vec<char>>) -> (r: Vec<Vec<char>>)
    ensures
        r@ == v@.reverse(),
{
    let mut rest = v;
    let mut out: Vec<Vec<char>> = Vec::new();
    while rest.len() > 0
        invariant
            out@.len() + rest@.len() == v@.len(),
            rest@ == v@.subrange(0, rest@.len() as int),
            forall|i: int| 0 <= i < out@.len() ==> #[trigger] out@[i] == v@[v@.len() - 1 - i],
        decreases rest.len(),
    {
        let x = rest.pop().unwrap();
        out.push(x);
    }
    assert(out@ =~= v@.reverse());
    out
}

/// The fields of an item that every language fills the same way.
pub struct ItemParts {
    pub kind: AstItemKind,
    pub name: Option<Vec<char>>,
    pub associated_type: Option<Vec<char>>,
    pub location: AstLocationRange,
    pub docs: Option<Vec<char>>,
    pub inner_docs: Option<Vec<char>>,
    pub attributes: Option<Vec<char>>,
    pub source_preamble: Option<Vec<char>>,
    pub summary: Vec<char>,
    pub signature: Option<Vec<char>>,
    pub body: Option<Vec<char>>,
}

/// The text of an optional character vector.
pub open spec fn opt_chars_view(v: Option<Vec<char>>) -> Option<Seq<char>> {
    match v {
        Some(t) => Some(t@),
        None => None,
    }
}

/// The kind, name and summary of an item.
pub open spec fn item_head(item: AstItem) -> (AstItemKind, Option<Seq<char>>, Seq<char>) {
    (item.kind, opt_seq(item.name), item.summary@)
}

/// The kinds, names and summaries of items.
pub open spec fn heads(items: Seq<AstItem>) -> Seq<(AstItemKind, Option<Seq<char>>, Seq<char>)> {
    items.map_values(|item: AstItem| item_head(item))
}

/// Builds an item from its parts and children.
pub fn make_item(parts: ItemParts, children: Vec<AstItem>) -> (r: AstItem)
    ensures
        r.kind == parts.kind,
        r.location == parts.location,
        r.summary@ == parts.summary@,
        r.name.is_some() == parts.name.is_some(),
        opt_seq(r.name) == opt_chars_view(parts.name),
        opt_seq(r.associated_type) == opt_chars_view(parts.associated_type),
        opt_seq(r.docs) == opt_chars_view(parts.docs),
        opt_seq(r.inner_docs) == opt_chars_view(parts.inner_docs),
        opt_seq(r.attributes) == opt_chars_view(parts.attributes),
        opt_seq(r.source_preamble) == opt_chars_view(parts.source_preamble),
        opt_seq(r.signature) == opt_chars_view(parts.signature),
        opt_seq(r.body) == opt_chars_view(parts.body),
        r.children@ == children@,
{
    AstItem {
        kind: parts.kind,
        name: opt_string(parts.name),
        associated_type: opt_string(parts.associated_type),
        location: parts.location,
        docs: opt_string(parts.docs),
        inner_docs: opt_string(parts.inner_docs),
        attributes: opt_string(parts.attributes),
        source_preamble: opt_string(parts.source_preamble),
        summary: string_of(&parts.summary),
        signature: opt_string(parts.signature),
        body: opt_string(parts.body),
        children,
    }
}

/// The number of spaces and tabs that directly precede offset `i`.
pub open spec fn blank_run_before(s: Seq<char>, i: int) -> int
    decreases i,
{
    if i <= 0 || !(s[i - 1] == ' ' || s[i - 1] == '\t') {
        0
    } else {
        1 + blank_run_before(s, i - 1)
    }
}

/// The white-space run that ends right before node `n` on its line (its source indentation).
pub open spec fn source_indent_spec(tree: SyntaxTree, n: usize) -> Seq<char> {
    tree.source@.subrange(
        tree.nodes@[n as int].start - blank_run_before(tree.source@, tree.nodes@[n as int].start as int),
        tree.nodes@[n as int].start as int,
    )
}

/// The white-space run that ends right before node `n` on its line (its source indentation).
pub fn source_indent_for_node(tree: &SyntaxTree, n: usize) -> (r: Vec<char>)
    requires
        tree.wf(),
        tree.valid_node(n),
    ensures
        r@ == source_indent_spec(*tree, n),
{
    let start = tree.nodes[n].start;
    let mut i = start;
    while i > 0 && (tree.source[i - 1] == ' ' || tree.source[i - 1] == '\t')
        invariant
            i <= start <= tree.source@.len(),
            start == tree.nodes@[n as int].start,
            start - blank_run_before(tree.source@, start as int) == i - blank_run_before(
                tree.source@,
                i as int,
            ),
        decreases i,
    {
        i = i - 1;
    }
    crate::text::copy_range(&tree.source, i, start)
}

} // verus!
