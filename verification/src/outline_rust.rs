//! Outlines of Rust source files.
use vstd::prelude::*;

use crate::outline::{
    opt_seq, overlaps_sibling, span_owns_lines, texts_view, first_syntax_error, location_from_span, mark_overlapping_siblings,
    with_sibling_overlap, AstItem, AstItemKind, AstLanguage, AstLocationRange, FileAst,
};
use crate::outline_common::{
    child_text_by_field, field_text_or, join_lines, make_item, opt_chars_view, name_or_anonymous, node_text_spec, opt_string,
    prefixed, reversed, signature_spec, signature_text, signature_text_with_body, ItemParts,
};
use crate::syntax::SyntaxTree;
use crate::text::{chars_of, push_all, starts_with, starts_with_str};

verus! {

/// `///` but not `////`, or `/**` but not `/***`.
pub open spec fn is_outer_doc_comment_spec(text: Seq<char>) -> bool {
    (starts_with(text, "///"@) && !starts_with(text, "////"@)) || (starts_with(text, "/**"@)
        && !starts_with(text, "/***"@))
}

/// `//!` or `/*!`.
pub open spec fn is_inner_doc_comment_spec(text: Seq<char>) -> bool {
    starts_with(text, "//!"@) || starts_with(text, "/*!"@)
}

pub fn is_rust_outer_doc_comment(text: &[char]) -> (r: bool)
    ensures
        r == is_outer_doc_comment_spec(text@),
{
    (starts_with_str(text, "///") && !starts_with_str(text, "////")) || (starts_with_str(
        text,
        "/**",
    ) && !starts_with_str(text, "/***"))
}

pub fn is_rust_inner_doc_comment(text: &[char]) -> (r: bool)
    ensures
        r == is_inner_doc_comment_spec(text@),
{
    starts_with_str(text, "//!") || starts_with_str(text, "/*!")
}

/// The first position at or after `i` that does not hold white space.
pub open spec fn white_space_end(s: Seq<char>, i: int) -> int
    decreases s.len() - i,
{
    if i >= s.len() || !crate::text::is_white_space(s[i]) {
        i
    } else {
        white_space_end(s, i + 1)
    }
}

/// The position after `word`, when `s[at..]` is white space followed by `word`.
pub open spec fn skip_ws_then_spec(s: Seq<char>, at: int, word: Seq<char>) -> Option<int> {
    let i = white_space_end(s, at);
    if starts_with(s.subrange(i, s.len() as int), word) {
        Some(i + word.len())
    } else {
        None
    }
}

/// Whether `text` is a `doc` attribute: `#[` (or `#![` for an inner one), white space, `doc`,
/// white space and `=`.
pub open spec fn is_doc_attribute_spec(text: Seq<char>, inner: bool) -> bool {
    let prefix = if inner {
        "#!["@
    } else {
        "#["@
    };
    starts_with(text, prefix) && match skip_ws_then_spec(text, prefix.len() as int, "doc"@) {
        Some(p) => skip_ws_then_spec(text, p, "="@) is Some,
        None => false,
    }
}

/// Whether `text[at..]` begins with white space and then `word`; returns the position after
/// `word`.
fn skip_ws_then(text: &[char], at: usize, word: &str) -> (r: Option<usize>)
    requires
        at <= text@.len(),
    ensures
        r matches Some(p) ==> p <= text@.len(),
        match skip_ws_then_spec(text@, at as int, word@) {
            Some(p) => r matches Some(q) && q == p,
            None => r is None,
        },
{
    let mut i = at;
    while i < text.len() && crate::text::char_is_white_space(text[i])
        invariant
            at <= i <= text@.len(),
            white_space_end(text@, at as int) == white_space_end(text@, i as int),
        decreases text.len() - i,
    {
        i = i + 1;
    }
    let w = chars_of(word);
    if crate::text::has_prefix_at(text, i, &w) {
        Some(i + w.len())
    } else {
        None
    }
}

/// `#[doc = ...]` (outer) or `#![doc = ...]` (inner), white space allowed around `doc`.
pub fn is_rust_doc_attribute(text: &[char], inner: bool) -> (r: bool)
    ensures
        r == is_doc_attribute_spec(text@, inner),
{
    assert(text@.subrange(0, text@.len() as int) =~= text@);
    let prefix = if inner {
        chars_of("#![")
    } else {
        chars_of("#[")
    };
    if !crate::text::has_prefix_at(text, 0, &prefix) {
        return false;
    }
    let after_doc = match skip_ws_then(text, prefix.len(), "doc") {
        Some(p) => p,
        None => return false,
    };
    match skip_ws_then(text, after_doc, "=") {
        Some(_) => true,
        None => false,
    }
}

/// The number of line breaks in `s[i..]`: `"\r\n"`, `"\r"` and `"\n"` each count once.
pub open spec fn line_breaks_from(s: Seq<char>, i: int) -> int
    decreases s.len() - i,
{
    if i < 0 || i >= s.len() {
        0
    } else if s[i] == '\r' {
        1 + line_breaks_from(
            s,
            if i + 1 < s.len() && s[i + 1] == '\n' {
                i + 2
            } else {
                i + 1
            },
        )
    } else if s[i] == '\n' {
        1 + line_breaks_from(s, i + 1)
    } else {
        line_breaks_from(s, i + 1)
    }
}

/// Whether a gap holds at least two line breaks (`"\r\n"`, `"\r"` and `"\n"` each count once).
pub fn rust_gap_has_blank_line(gap: &[char]) -> (r: bool)
    ensures
        r == (line_breaks_from(gap@, 0) >= 2),
{
    let mut breaks: usize = 0;
    let mut i: usize = 0;
    while i < gap.len()
        invariant
            i <= gap@.len(),
            breaks <= i,
            breaks + line_breaks_from(gap@, i as int) == line_breaks_from(gap@, 0),
        decreases gap.len() - i,
    {
        if gap[i] == '\r' {
            breaks = breaks + 1;
            if i + 1 < gap.len() && gap[i + 1] == '\n' {
                i = i + 1;
            }
        } else if gap[i] == '\n' {
            breaks = breaks + 1;
        }
        i = i + 1;
    }
    breaks >= 2
}

/// `::` replaced by `.`.
pub open spec fn canonical_type_path_spec(path: Seq<char>) -> Seq<char>
    decreases path.len(),
{
    if path.len() == 0 {
        Seq::empty()
    } else if path.len() >= 2 && path[0] == ':' && path[1] == ':' {
        seq!['.'] + canonical_type_path_spec(path.subrange(2, path.len() as int))
    } else {
        seq![path[0]] + canonical_type_path_spec(path.drop_first())
    }
}

pub fn canonical_rust_type_path(path: &[char]) -> (r: Vec<char>)
    ensures
        r@ == canonical_type_path_spec(path@),
{
    let mut out: Vec<char> = Vec::new();
    let mut i: usize = 0;
    assert(path@.subrange(0, path@.len() as int) =~= path@);
    assert(out@ + canonical_type_path_spec(path@) =~= canonical_type_path_spec(path@));
    while i < path.len()
        invariant
            i <= path@.len(),
            out@ + canonical_type_path_spec(path@.subrange(i as int, path@.len() as int))
                == canonical_type_path_spec(path@),
        decreases path.len() - i,
    {
        let ghost rest = path@.subrange(i as int, path@.len() as int);
        if i + 1 < path.len() && path[i] == ':' && path[i + 1] == ':' {
            out.push('.');
            proof {
                assert(rest.subrange(2, rest.len() as int) =~= path@.subrange(i + 2, path@.len() as int));
            }
            i = i + 2;
        } else {
            out.push(path[i]);
            proof {
                assert(rest.drop_first() =~= path@.subrange(i + 1, path@.len() as int));
            }
            i = i + 1;
        }
    }
    proof {
        assert(path@.subrange(i as int, path@.len() as int) =~= Seq::<char>::empty());
        assert(out@ + Seq::<char>::empty() =~= out@);
    }
    out
}

/// Whether node `n` is a line or block comment.
pub open spec fn is_comment_kind(tree: SyntaxTree, n: usize) -> bool {
    tree.kind_of(n) == "line_comment"@ || tree.kind_of(n) == "block_comment"@
}

fn is_rust_comment_node(tree: &SyntaxTree, n: usize) -> (r: bool)
    requires
        tree.valid_node(n),
    ensures
        r == is_comment_kind(*tree, n),
{
    tree.kind_is(n, "line_comment") || tree.kind_is(n, "block_comment")
}

/// Walking back from `previous` over the comments that end on row `row`: whether the first
/// other sibling also ends on that row and is not an attribute.
pub open spec fn trails_from(tree: SyntaxTree, row: usize, previous: Option<usize>) -> bool
    decreases
            match previous {
                Some(s) => s as int + 1,
                None => 0,
            },
    when tree.wf()
{
    match previous {
        Some(s) => if s >= tree.nodes@.len() || tree.nodes@[s as int].end_row != row {
            false
        } else if is_comment_kind(tree, s) {
            proof {
                tree.lemma_prev_named_sibling(s);
            }
            trails_from(tree, row, tree.prev_named_sibling_spec(s))
        } else {
            tree.kind_of(s) != "attribute_item"@
        },
        None => false,
    }
}

/// Whether a comment begins on the row where earlier code (not an attribute) ends.
pub open spec fn trails_prior_code(tree: SyntaxTree, comment: usize) -> bool {
    trails_from(tree, tree.nodes@[comment as int].start_row, tree.prev_named_sibling_spec(comment))
}

/// A comment that begins on the line where earlier code (not an attribute) ends.
fn rust_comment_trails_prior_code(tree: &SyntaxTree, comment: usize) -> (r: bool)
    requires
        tree.wf(),
        tree.valid_node(comment),
    ensures
        r == trails_prior_code(*tree, comment),
{
    let row = tree.nodes[comment].start_row;
    let mut previous = tree.prev_named_sibling(comment);
    loop
        invariant
            tree.wf(),
            previous matches Some(s) ==> tree.valid_node(s),
            trails_from(*tree, row, previous) == trails_prior_code(*tree, comment),
        decreases match previous {
            Some(s) => s as int + 1,
            None => 0,
        },
    {
        match previous {
            Some(sibling) => {
                if tree.nodes[sibling].end_row != row {
                    return false;
                }
                if is_rust_comment_node(tree, sibling) {
                    previous = tree.prev_named_sibling(sibling);
                    continue ;
                }
                return !tree.kind_is(sibling, "attribute_item");
            },
            None => return false,
        }
    }
}

/// Docs, attributes and comments that belong to an item, from the siblings right before it.
struct RustItemPreamble {
    start_row: Option<usize>,
    start: Option<usize>,
    docs: Option<Vec<char>>,
    attributes: Option<Vec<char>>,
    source_text: Option<Vec<char>>,
}

/// Whether a sibling taken into an item's preamble is one of its docs: a `doc` attribute or an
/// outer doc comment.
pub open spec fn is_preamble_doc(tree: SyntaxTree, s: usize) -> bool {
    if tree.kind_of(s) == "attribute_item"@ {
        is_doc_attribute_spec(node_text_spec(tree, s), false)
    } else {
        is_outer_doc_comment_spec(node_text_spec(tree, s))
    }
}

/// Whether the walk back from an item takes sibling `s` into the item's preamble, where
/// `crossed` tells whether a blank line lies between `s` and the item: attributes and outer
/// doc comments always, other comments when no blank line lies in between and they do not
/// trail earlier code; an inner doc comment or anything else ends the walk.
pub open spec fn preamble_takes(tree: SyntaxTree, s: usize, crossed: bool) -> bool {
    let text = node_text_spec(tree, s);
    if tree.kind_of(s) == "attribute_item"@ || is_outer_doc_comment_spec(text) {
        true
    } else if is_inner_doc_comment_spec(text) {
        false
    } else if is_comment_kind(tree, s) {
        !crossed && !trails_prior_code(tree, s)
    } else {
        false
    }
}

/// Whether a blank line separates sibling `s` from what follows it at `anchor`.
pub open spec fn blank_line_after(tree: SyntaxTree, s: usize, anchor: int) -> bool {
    let end = tree.nodes@[s as int].end as int;
    end <= anchor && line_breaks_from(tree.source@.subrange(end, anchor), 0) >= 2
}

/// The siblings that the walk back from `current` takes, nearest first; `anchor` is where
/// the last taken node (or the item) starts.
pub open spec fn preamble_walk(
    tree: SyntaxTree,
    current: Option<usize>,
    anchor: int,
    crossed: bool,
) -> Seq<usize>
    decreases
            match current {
                Some(s) => s as int + 1,
                None => 0,
            },
    when tree.wf()
{
    match current {
        Some(s) => if s >= tree.nodes@.len() {
            Seq::empty()
        } else {
            let crossed_here = crossed || blank_line_after(tree, s, anchor);
            if preamble_takes(tree, s, crossed_here) {
                proof {
                    tree.lemma_prev_named_sibling(s);
                }
                seq![s] + preamble_walk(
                    tree,
                    tree.prev_named_sibling_spec(s),
                    tree.nodes@[s as int].start as int,
                    crossed_here,
                )
            } else {
                Seq::empty()
            }
        },
        None => Seq::empty(),
    }
}

/// The siblings before node `n` that make up its preamble, nearest first.
pub open spec fn preamble_nodes(tree: SyntaxTree, n: usize) -> Seq<usize> {
    preamble_walk(tree, tree.prev_named_sibling_spec(n), tree.nodes@[n as int].start as int, false)
}

/// The texts of `nodes`, in order: all of them (`which` is `None`), or those that are docs
/// (`Some(true)`) or not (`Some(false)`).
pub open spec fn preamble_texts(tree: SyntaxTree, nodes: Seq<usize>, which: Option<bool>) -> Seq<
    Seq<char>,
>
    decreases nodes.len(),
{
    if nodes.len() == 0 {
        Seq::empty()
    } else {
        let rest = preamble_texts(tree, nodes.drop_last(), which);
        let s = nodes.last();
        let keep = match which {
            Some(docs) => is_preamble_doc(tree, s) == docs,
            None => true,
        };
        if keep {
            rest.push(node_text_spec(tree, s))
        } else {
            rest
        }
    }
}

/// Texts joined line by line, or nothing when there are none.
pub open spec fn joined_lines(parts: Seq<Seq<char>>) -> Option<Seq<char>> {
    if parts.len() == 0 {
        None
    } else {
        Some(crate::outline::joined(parts, '\n'))
    }
}

/// The preamble of an item whose walk took `nodes`: where it starts, and its docs,
/// attributes and source text, each in source order.
spec fn preamble_is(r: RustItemPreamble, tree: SyntaxTree, nodes: Seq<usize>) -> bool {
    &&& r.start_row == if nodes.len() == 0 {
        None
    } else {
        Some(tree.nodes@[nodes.last() as int].start_row)
    }
    &&& r.start == if nodes.len() == 0 {
        None
    } else {
        Some(tree.nodes@[nodes.last() as int].start)
    }
    &&& opt_chars_view(r.docs) == joined_lines(preamble_texts(tree, nodes, Some(true)).reverse())
    &&& opt_chars_view(r.attributes) == joined_lines(
        preamble_texts(tree, nodes, Some(false)).reverse(),
    )
    &&& opt_chars_view(r.source_text) == joined_lines(preamble_texts(tree, nodes, None).reverse())
}

fn join_lines_of(fragments: Vec<Vec<char>>) -> (r: Option<Vec<char>>)
    ensures
        opt_chars_view(r) == joined_lines(texts_view(fragments@).reverse()),
{
    let ordered = reversed(fragments);
    let r = join_lines(&ordered);
    proof {
        assert(texts_view(ordered@) =~= texts_view(fragments@).reverse());
    }
    r
}

fn item_preamble(tree: &SyntaxTree, n: usize) -> (r: RustItemPreamble)
    requires
        tree.wf(),
        tree.valid_node(n),
    ensures
        r.start matches Some(s) ==> s <= tree.source@.len(),
        preamble_is(r, *tree, preamble_nodes(*tree, n)),
{
    let ghost full = preamble_nodes(*tree, n);
    let ghost mut taken: Seq<usize> = Seq::empty();
    let mut current = tree.prev_named_sibling(n);
    let mut anchor = tree.nodes[n].start;
    let mut crossed_blank_line = false;
    let mut start_row: Option<usize> = None;
    let mut start: Option<usize> = None;
    let mut docs: Vec<Vec<char>> = Vec::new();
    let mut attributes: Vec<Vec<char>> = Vec::new();
    let mut source_fragments: Vec<Vec<char>> = Vec::new();
    assert(full == taken + preamble_walk(*tree, current, anchor as int, crossed_blank_line));
    loop
        invariant
            tree.wf(),
            anchor <= tree.source@.len(),
            current matches Some(s) ==> tree.valid_node(s),
            start matches Some(s) ==> s <= tree.source@.len(),
            full == preamble_nodes(*tree, n),
            full == taken + preamble_walk(*tree, current, anchor as int, crossed_blank_line),
            forall|j: int| 0 <= j < taken.len() ==> tree.valid_node(#[trigger] taken[j]),
            start_row == if taken.len() == 0 {
                None
            } else {
                Some(tree.nodes@[taken.last() as int].start_row)
            },
            start == if taken.len() == 0 {
                None
            } else {
                Some(tree.nodes@[taken.last() as int].start)
            },
            texts_view(docs@) == preamble_texts(*tree, taken, Some(true)),
            texts_view(attributes@) == preamble_texts(*tree, taken, Some(false)),
            texts_view(source_fragments@) == preamble_texts(*tree, taken, None),
        ensures
            full == taken,
            start_row == if taken.len() == 0 {
                None
            } else {
                Some(tree.nodes@[taken.last() as int].start_row)
            },
            start == if taken.len() == 0 {
                None
            } else {
                Some(tree.nodes@[taken.last() as int].start)
            },
            start matches Some(s) ==> s <= tree.source@.len(),
            texts_view(docs@) == preamble_texts(*tree, taken, Some(true)),
            texts_view(attributes@) == preamble_texts(*tree, taken, Some(false)),
            texts_view(source_fragments@) == preamble_texts(*tree, taken, None),
        decreases match current {
            Some(s) => s as int + 1,
            None => 0,
        },
    {
        let sibling = match current {
            Some(s) => s,
            None => {
                assert(taken + Seq::<usize>::empty() =~= taken);
                break;
            },
        };
        let ghost crossed_before = crossed_blank_line;
        let text = tree.trimmed_node_text(sibling);
        let gap_start = tree.nodes[sibling].end;
        if gap_start <= anchor {
            let gap = crate::text::copy_range(&tree.source, gap_start, anchor);
            if rust_gap_has_blank_line(&gap) {
                crossed_blank_line = true;
            }
        }
        assert(crossed_blank_line == (crossed_before || blank_line_after(
            *tree,
            sibling,
            anchor as int,
        )));
        let is_attribute = tree.kind_is(sibling, "attribute_item");
        let ghost docs_before = texts_view(docs@);
        let ghost attributes_before = texts_view(attributes@);
        let ghost sources_before = texts_view(source_fragments@);
        assert(text@.subrange(0, text@.len() as int) =~= text@);
        if is_attribute && is_rust_doc_attribute(&text, false) {
            docs.push(crate::text::copy_range(&text, 0, text.len()));
            assert(texts_view(docs@) =~= docs_before.push(text@));
        } else if is_attribute {
            attributes.push(crate::text::copy_range(&text, 0, text.len()));
            assert(texts_view(attributes@) =~= attributes_before.push(text@));
        } else if is_rust_outer_doc_comment(&text) {
            docs.push(crate::text::copy_range(&text, 0, text.len()));
            assert(texts_view(docs@) =~= docs_before.push(text@));
        } else if is_rust_inner_doc_comment(&text) {
            assert(taken + Seq::<usize>::empty() =~= taken);
            break;
        } else if is_rust_comment_node(tree, sibling) {
            if crossed_blank_line || rust_comment_trails_prior_code(tree, sibling) {
                assert(taken + Seq::<usize>::empty() =~= taken);
                break;
            }
            attributes.push(crate::text::copy_range(&text, 0, text.len()));
            assert(texts_view(attributes@) =~= attributes_before.push(text@));
        } else {
            assert(taken + Seq::<usize>::empty() =~= taken);
            break;
        }
        let ghost text_view = text@;
        source_fragments.push(text);
        assert(texts_view(source_fragments@) =~= sources_before.push(text_view));
        proof {
            tree.lemma_prev_named_sibling(sibling);
            let next = taken.push(sibling);
            assert(next.drop_last() =~= taken);
            assert(full =~= next + preamble_walk(
                *tree,
                tree.prev_named_sibling_spec(sibling),
                tree.nodes@[sibling as int].start as int,
                crossed_blank_line,
            ));
            taken = next;
        }
        start_row = Some(tree.nodes[sibling].start_row);
        start = Some(tree.nodes[sibling].start);
        anchor = tree.nodes[sibling].start;
        current = tree.prev_named_sibling(sibling);
    }
    RustItemPreamble {
        start_row,
        start,
        docs: join_lines_of(docs),
        attributes: join_lines_of(attributes),
        source_text: join_lines_of(source_fragments),
    }
}

/// The inner docs at the top of a container from its child at position `k` on: inner doc
/// comments and `#![doc = ...]` attributes, read past other inner attributes, a shebang and
/// ordinary comments, up to anything else.
pub open spec fn inner_docs_from(tree: SyntaxTree, children: Seq<usize>, k: int) -> Seq<Seq<char>>
    decreases children.len() - k,
{
    if k < 0 || k >= children.len() {
        Seq::empty()
    } else {
        let c = children[k];
        let text = node_text_spec(tree, c);
        let inner_attribute = tree.kind_of(c) == "inner_attribute_item"@;
        if inner_attribute && is_doc_attribute_spec(text, true) {
            seq![text] + inner_docs_from(tree, children, k + 1)
        } else if inner_attribute || tree.kind_of(c) == "shebang"@ {
            inner_docs_from(tree, children, k + 1)
        } else if is_inner_doc_comment_spec(text) {
            seq![text] + inner_docs_from(tree, children, k + 1)
        } else if is_comment_kind(tree, c) && !is_outer_doc_comment_spec(text) {
            inner_docs_from(tree, children, k + 1)
        } else {
            Seq::empty()
        }
    }
}

/// The inner docs of a container, joined line by line.
pub open spec fn inner_docs_spec(tree: SyntaxTree, container: usize) -> Option<Seq<char>> {
    joined_lines(inner_docs_from(tree, tree.named_children_spec(container), 0))
}

/// Inner docs at the top of a container: inner doc comments and `#![doc = ...]` attributes,
/// read past other inner attributes, a shebang and ordinary comments.
fn inner_docs(tree: &SyntaxTree, container: usize) -> (r: Option<Vec<char>>)
    requires
        tree.wf(),
        tree.valid_node(container),
    ensures
        opt_chars_view(r) == inner_docs_spec(*tree, container),
{
    let children = tree.named_children(container);
    let ghost all = inner_docs_from(*tree, children@, 0);
    let mut fragments: Vec<Vec<char>> = Vec::new();
    let mut k: usize = 0;
    assert(texts_view(fragments@) + inner_docs_from(*tree, children@, 0) =~= all);
    while k < children.len()
        invariant
            tree.wf(),
            k <= children@.len(),
            children@ == tree.named_children_spec(container),
            forall|j: int| 0 <= j < children@.len() ==> container < #[trigger] children@[j] < tree.nodes@.len(),
            all == inner_docs_from(*tree, children@, 0),
            texts_view(fragments@) + inner_docs_from(*tree, children@, k as int) == all,
        ensures
            texts_view(fragments@) == all,
        decreases children.len() - k,
    {
        let child = children[k];
        let text = tree.trimmed_node_text(child);
        let ghost before = texts_view(fragments@);
        let ghost rest = inner_docs_from(*tree, children@, k + 1);
        let is_inner_attribute = tree.kind_is(child, "inner_attribute_item");
        if is_inner_attribute && is_rust_doc_attribute(&text, true) {
            fragments.push(text);
            assert(texts_view(fragments@) + rest =~= before + (seq![text@] + rest));
        } else if is_inner_attribute || tree.kind_is(child, "shebang") {
        } else if is_rust_inner_doc_comment(&text) {
            fragments.push(text);
            assert(texts_view(fragments@) + rest =~= before + (seq![text@] + rest));
        } else if is_rust_comment_node(tree, child) && !is_rust_outer_doc_comment(&text) {
        } else {
            assert(before + Seq::<Seq<char>>::empty() =~= before);
            break;
        }
        k = k + 1;
    }
    proof {
        if k == children.len() {
            assert(texts_view(fragments@) + Seq::<Seq<char>>::empty() =~= texts_view(fragments@));
        }
    }
    join_lines(&fragments)
}

fn location_for_rust_node(tree: &SyntaxTree, n: usize, preamble: &RustItemPreamble) -> (l:
    AstLocationRange)
    requires
        tree.wf(),
        tree.valid_node(n),
        preamble.start matches Some(s) ==> s <= tree.source@.len(),
        preamble_is(*preamble, *tree, preamble_nodes(*tree, n)),
    ensures
        rust_item_lines(*tree, n, l),
        l.is_edit_ready == rust_item_owns_lines(*tree, n),
{
    let node = &tree.nodes[n];
    assert(tree.nodes@[n as int].start <= tree.nodes@[n as int].end);
    let start_row = match preamble.start_row {
        Some(r) => r,
        None => node.start_row,
    };
    let start = match preamble.start {
        Some(s) => s,
        None => node.start,
    };
    location_from_span(&tree.source, start_row, node.end_row, node.end_column, start, node.end)
}

/// The nominal type that a type node names: the text of a type identifier or primitive type,
/// a scoped type path with `::` turned into `.`, for a generic type that of its `type` field or
/// else of its first named child that names one, and for anything else that of its first named
/// child, lifetimes aside, that names one.
pub open spec fn nominal_type(tree: SyntaxTree, n: usize) -> Option<Seq<char>>
    decreases tree.nodes@.len() - n, 1int,
    when tree.wf() && tree.valid_node(n)
{
    let kind = tree.kind_of(n);
    if kind == "type_identifier"@ || kind == "primitive_type"@ {
        Some(node_text_spec(tree, n))
    } else if kind == "scoped_type_identifier"@ {
        Some(canonical_type_path_spec(node_text_spec(tree, n)))
    } else if kind == "generic_type"@ {
        proof {
            tree.lemma_field_child(n, "type"@);
        }
        match tree.field_child(n, "type"@) {
            Some(inner) => match nominal_type(tree, inner) {
                Some(t) => Some(t),
                None => first_nominal_type(tree, n, 0, false),
            },
            None => first_nominal_type(tree, n, 0, false),
        }
    } else {
        first_nominal_type(tree, n, 0, true)
    }
}

/// The nominal type of the first named child of `n`, from position `k` of its children on,
/// that names one, lifetimes left out when `skip_lifetimes`.
pub open spec fn first_nominal_type(tree: SyntaxTree, n: usize, k: int, skip_lifetimes: bool) -> Option<
    Seq<char>,
>
    decreases tree.nodes@.len() - n, 0int, tree.nodes@[n as int].children@.len() - k,
    when tree.wf() && tree.valid_node(n)
{
    let children = tree.nodes@[n as int].children@;
    if k < 0 || k >= children.len() {
        None
    } else {
        let c = children[k];
        proof {
            assert(n < c < tree.nodes@.len());
        }
        if !tree.nodes@[c as int].is_named || (skip_lifetimes && tree.kind_of(c) == "lifetime"@) {
            first_nominal_type(tree, n, k + 1, skip_lifetimes)
        } else {
            match nominal_type(tree, c) {
                Some(t) => Some(t),
                None => first_nominal_type(tree, n, k + 1, skip_lifetimes),
            }
        }
    }
}

/// The nominal type that an `impl` target names: the type path of a (possibly generic,
/// referenced or qualified) type, with `::` turned into `.`.
fn extract_nominal_type(tree: &SyntaxTree, n: usize) -> (r: Option<Vec<char>>)
    requires
        tree.wf(),
        tree.valid_node(n),
    ensures
        opt_chars_view(r) == nominal_type(*tree, n),
    decreases tree.nodes@.len() - n, 1int,
{
    if tree.kind_is(n, "type_identifier") || tree.kind_is(n, "primitive_type") {
        return Some(tree.trimmed_node_text(n));
    }
    if tree.kind_is(n, "scoped_type_identifier") {
        let text = tree.trimmed_node_text(n);
        return Some(canonical_rust_type_path(&text));
    }
    if tree.kind_is(n, "generic_type") {
        match tree.child_by_field(n, "type") {
            Some(inner) => {
                match extract_nominal_type(tree, inner) {
                    Some(t) => return Some(t),
                    None => {},
                }
            },
            None => {},
        }
        return first_nominal_child(tree, n, false);
    }
    first_nominal_child(tree, n, true)
}

/// The nominal type of the first named child of `n` that names one, lifetimes left out when
/// `skip_lifetimes`.
fn first_nominal_child(tree: &SyntaxTree, n: usize, skip_lifetimes: bool) -> (r: Option<Vec<char>>)
    requires
        tree.wf(),
        tree.valid_node(n),
    ensures
        opt_chars_view(r) == first_nominal_type(*tree, n, 0, skip_lifetimes),
    decreases tree.nodes@.len() - n, 0int,
{
    let children = tree.children_of(n);
    let mut k: usize = 0;
    while k < children.len()
        invariant
            tree.wf(),
            tree.valid_node(n),
            k <= children@.len(),
            children@ == tree.nodes@[n as int].children@,
            forall|j: int| 0 <= j < children@.len() ==> n < #[trigger] children@[j] < tree.nodes@.len(),
            first_nominal_type(*tree, n, k as int, skip_lifetimes) == first_nominal_type(
                *tree,
                n,
                0,
                skip_lifetimes,
            ),
        decreases children.len() - k,
    {
        let c = children[k];
        if tree.nodes[c].is_named && !(skip_lifetimes && tree.kind_is(c, "lifetime")) {
            match extract_nominal_type(tree, c) {
                Some(t) => return Some(t),
                None => {},
            }
        }
        k = k + 1;
    }
    None
}

/// The kind and keyword of a Rust item that outlines show by its keyword and name alone.
pub open spec fn rust_simple_item(kind: Seq<char>) -> Option<(AstItemKind, Seq<char>)> {
    if kind == "struct_item"@ {
        Some((AstItemKind::Struct, "struct "@))
    } else if kind == "enum_item"@ {
        Some((AstItemKind::Enum, "enum "@))
    } else if kind == "union_item"@ {
        Some((AstItemKind::Union, "union "@))
    } else if kind == "type_item"@ || kind == "associated_type"@ {
        Some((AstItemKind::TypeAlias, "type "@))
    } else if kind == "const_item"@ {
        Some((AstItemKind::Const, "const "@))
    } else if kind == "static_item"@ {
        Some((AstItemKind::Static, "static "@))
    } else {
        None
    }
}

/// The first of the named children of `n` from position `k` on that is a macro invocation.
pub open spec fn first_macro_child(tree: SyntaxTree, n: usize, k: int) -> Option<usize>
    decreases tree.named_children_spec(n).len() - k,
{
    let children = tree.named_children_spec(n);
    if k < 0 || k >= children.len() {
        None
    } else if tree.kind_of(children[k]) == "macro_invocation"@ {
        Some(children[k])
    } else {
        first_macro_child(tree, n, k + 1)
    }
}

/// The summary of a macro invocation: `macro invocation name!`.
pub open spec fn macro_invocation_summary(tree: SyntaxTree, invocation: usize) -> Seq<char> {
    "macro invocation "@ + field_text_or(tree, invocation, "macro"@, "<anonymous>"@) + seq!['!']
}

/// The outline item that a Rust node gives, when outlines show its kind: its kind and its
/// summary.
pub open spec fn rust_item_head(tree: SyntaxTree, n: usize) -> Option<(AstItemKind, Seq<char>)> {
    let kind = tree.kind_of(n);
    let name = field_text_or(tree, n, "name"@, "<anonymous>"@);
    if kind == "function_item"@ || kind == "function_signature_item"@ {
        Some((AstItemKind::Function, "fn "@ + name))
    } else if rust_simple_item(kind) is Some {
        match rust_simple_item(kind) {
            Some((item_kind, keyword)) => Some((item_kind, keyword + name)),
            None => None,
        }
    } else if kind == "trait_item"@ {
        Some((AstItemKind::Trait, "trait "@ + name))
    } else if kind == "impl_item"@ {
        let target = field_text_or(tree, n, "type"@, "<unknown>"@);
        Some(
            (
                AstItemKind::Impl,
                match tree.field_child(n, "trait"@) {
                    Some(t) => "impl "@ + node_text_spec(tree, t) + " for "@ + target,
                    None => "impl "@ + target,
                },
            ),
        )
    } else if kind == "mod_item"@ {
        Some((AstItemKind::Module, "mod "@ + name))
    } else if kind == "use_declaration"@ {
        Some((AstItemKind::Use, node_text_spec(tree, n)))
    } else if kind == "macro_definition"@ {
        Some((AstItemKind::Macro, "macro_rules! "@ + name))
    } else if kind == "macro_invocation"@ {
        Some((AstItemKind::MacroInvocation, macro_invocation_summary(tree, n)))
    } else if kind == "expression_statement"@ {
        match first_macro_child(tree, n, 0) {
            Some(m) => Some((AstItemKind::MacroInvocation, macro_invocation_summary(tree, m))),
            None => None,
        }
    } else if kind == "foreign_mod_item"@ {
        Some(
            (AstItemKind::ForeignBlock, signature_spec(tree, n, tree.field_child(n, "body"@))),
        )
    } else {
        None
    }
}

/// Whether node `n` is a function, a trait, or an item that outlines show by its keyword and
/// name alone.
pub open spec fn rust_plain_item(tree: SyntaxTree, n: usize) -> bool {
    let kind = tree.kind_of(n);
    kind == "function_item"@ || kind == "function_signature_item"@ || rust_simple_item(kind) is Some
        || kind == "trait_item"@
}

/// The name of the item of node `n`: its `name` (`<anonymous>` when missing), the argument of
/// a `use`, the macro of a macro invocation, and none for an `impl` or a foreign block.
pub open spec fn rust_item_name(tree: SyntaxTree, n: usize) -> Option<Seq<char>> {
    let kind = tree.kind_of(n);
    let name = Some(field_text_or(tree, n, "name"@, "<anonymous>"@));
    if rust_plain_item(tree, n) {
        name
    } else if kind == "impl_item"@ {
        None
    } else if kind == "mod_item"@ {
        name
    } else if kind == "use_declaration"@ {
        match tree.field_child(n, "argument"@) {
            Some(a) => Some(node_text_spec(tree, a)),
            None => None,
        }
    } else if kind == "macro_definition"@ {
        name
    } else if kind == "macro_invocation"@ {
        Some(field_text_or(tree, n, "macro"@, "<anonymous>"@))
    } else if kind == "expression_statement"@ {
        match first_macro_child(tree, n, 0) {
            Some(m) => Some(field_text_or(tree, m, "macro"@, "<anonymous>"@)),
            None => None,
        }
    } else {
        None
    }
}

/// The type that an `impl` is for, by its nominal type path.
pub open spec fn rust_item_associated_type(tree: SyntaxTree, n: usize) -> Option<Seq<char>> {
    if !rust_plain_item(tree, n) && tree.kind_of(n) == "impl_item"@ {
        match tree.field_child(n, "type"@) {
            Some(t) => nominal_type(tree, t),
            None => None,
        }
    } else {
        None
    }
}

/// The inner docs at the top of a module's body.
pub open spec fn rust_item_inner_docs(tree: SyntaxTree, n: usize) -> Option<Seq<char>> {
    let kind = tree.kind_of(n);
    if !rust_plain_item(tree, n) && kind != "impl_item"@ && kind == "mod_item"@ {
        match tree.field_child(n, "body"@) {
            Some(b) => inner_docs_spec(tree, b),
            None => None,
        }
    } else {
        None
    }
}

/// Whether node `n` is a `use` or a macro invocation, items without a body.
pub open spec fn rust_bodiless_item(tree: SyntaxTree, n: usize) -> bool {
    let kind = tree.kind_of(n);
    &&& !rust_plain_item(tree, n)
    &&& kind != "impl_item"@
    &&& kind != "mod_item"@
    &&& (kind == "use_declaration"@ || (kind != "macro_definition"@ && (kind == "macro_invocation"@
        || kind == "expression_statement"@)))
}

/// The signature of the item of node `n`: the node's text for a `use` or a macro invocation,
/// `macro_rules! name` for a macro definition, and otherwise its text up to its body.
pub open spec fn rust_item_signature(tree: SyntaxTree, n: usize) -> Option<Seq<char>> {
    let kind = tree.kind_of(n);
    if rust_bodiless_item(tree, n) {
        Some(node_text_spec(tree, n))
    } else if !rust_plain_item(tree, n) && kind != "impl_item"@ && kind != "mod_item"@ && kind
        != "use_declaration"@ && kind == "macro_definition"@ {
        Some("macro_rules! "@ + field_text_or(tree, n, "name"@, "<anonymous>"@))
    } else {
        Some(signature_spec(tree, n, tree.field_child(n, "body"@)))
    }
}

/// The body of the item of node `n`: the node's text, except for a `use` or a macro invocation.
pub open spec fn rust_item_body(tree: SyntaxTree, n: usize) -> Option<Seq<char>> {
    if rust_bodiless_item(tree, n) {
        None
    } else {
        Some(node_text_spec(tree, n))
    }
}

/// Where the item of node `n` starts, as a row and an offset: at the first sibling of its
/// preamble, or else at the node.
pub open spec fn rust_item_start(tree: SyntaxTree, n: usize) -> (usize, usize) {
    let nodes = preamble_nodes(tree, n);
    if nodes.len() == 0 {
        (tree.nodes@[n as int].start_row, tree.nodes@[n as int].start)
    } else {
        (tree.nodes@[nodes.last() as int].start_row, tree.nodes@[nodes.last() as int].start)
    }
}

/// The lines of the item of node `n`: from the row where it starts to the row where the node
/// ends, one line further when the node ends inside a line.
pub open spec fn rust_item_lines(tree: SyntaxTree, n: usize, l: AstLocationRange) -> bool {
    let node = tree.nodes@[n as int];
    &&& l.start_line == rust_item_start(tree, n).0
    &&& (l.end_line == node.end_row + if node.end_column > 0 {
        1int
    } else {
        0int
    } || (node.end_row == usize::MAX && l.end_line == node.end_row))
}

/// Whether the item of node `n` owns its boundary lines: only white space before its start on
/// its first line, and after the node's end on its last line.
pub open spec fn rust_item_owns_lines(tree: SyntaxTree, n: usize) -> bool {
    let node = tree.nodes@[n as int];
    span_owns_lines(
        tree.source@,
        rust_item_start(tree, n).1 as int,
        node.end as int,
        node.end_column as int,
    )
}

/// The texts, preamble and lines of the item of node `n`.
pub open spec fn rust_item_fields(item: AstItem, tree: SyntaxTree, n: usize) -> bool {
    let nodes = preamble_nodes(tree, n);
    &&& opt_seq(item.name) == rust_item_name(tree, n)
    &&& opt_seq(item.associated_type) == rust_item_associated_type(tree, n)
    &&& opt_seq(item.inner_docs) == rust_item_inner_docs(tree, n)
    &&& opt_seq(item.signature) == rust_item_signature(tree, n)
    &&& opt_seq(item.body) == rust_item_body(tree, n)
    &&& opt_seq(item.docs) == joined_lines(preamble_texts(tree, nodes, Some(true)).reverse())
    &&& opt_seq(item.attributes) == joined_lines(preamble_texts(tree, nodes, Some(false)).reverse())
    &&& opt_seq(item.source_preamble) == joined_lines(preamble_texts(tree, nodes, None).reverse())
    &&& rust_item_lines(tree, n, item.location)
}

/// Whether items are edit-ready exactly where they own their lines.
pub open spec fn rust_ready_as_owned(items: Seq<AstItem>, tree: SyntaxTree, decls: Seq<usize>) -> bool {
    forall|k: int|
        0 <= k < items.len() ==> (#[trigger] items[k]).location.is_edit_ready
            == rust_item_owns_lines(tree, decls[k])
}

/// Whether items are edit-ready exactly where they own their lines and share none with a
/// sibling.
pub open spec fn rust_ready_among_siblings(items: Seq<AstItem>, tree: SyntaxTree, decls: Seq<usize>) -> bool {
    forall|k: int|
        0 <= k < items.len() ==> (#[trigger] items[k]).location.is_edit_ready == (
        rust_item_owns_lines(tree, decls[k]) && !overlaps_sibling(items, k))
}

/// Whether outlines show a Rust node as an item.
pub open spec fn rust_declares(tree: SyntaxTree, n: usize) -> bool {
    rust_item_head(tree, n) is Some
}

/// The named children of `n` that outlines show, in order.
pub open spec fn rust_decls(tree: SyntaxTree, n: usize) -> Seq<usize> {
    tree.named_children_spec(n).filter(|c: usize| rust_declares(tree, c))
}

/// Whether a node's item is not a macro invocation.
pub open spec fn not_macro_invocation(tree: SyntaxTree, c: usize) -> bool {
    rust_item_head(tree, c) matches Some((kind, _)) && kind != AstItemKind::MacroInvocation
}

/// The nodes whose items are the children of the item of `n`: the items of its body for a
/// function (without macro invocations), a trait, an `impl`, a module or a foreign block.
pub open spec fn rust_child_decls(tree: SyntaxTree, n: usize) -> Seq<usize> {
    let body = tree.field_child(n, "body"@);
    match rust_item_head(tree, n) {
        Some((kind, _)) => if kind == AstItemKind::Function {
            match body {
                Some(b) => rust_decls(tree, b).filter(|c: usize| not_macro_invocation(tree, c)),
                None => Seq::empty(),
            }
        } else if kind == AstItemKind::Trait || kind == AstItemKind::Impl || kind
            == AstItemKind::Module || kind == AstItemKind::ForeignBlock {
            match body {
                Some(b) => rust_decls(tree, b),
                None => Seq::empty(),
            }
        } else {
            Seq::empty()
        },
        None => Seq::empty(),
    }
}

/// Whether `item` is the item of node `n`: its kind, summary, texts, preamble and lines, and,
/// one by one, its children.
pub open spec fn rust_item_is(item: AstItem, tree: SyntaxTree, n: usize) -> bool
    decreases item, 1nat, 0nat,
{
    match rust_item_head(tree, n) {
        Some((kind, summary)) => {
            &&& item.kind == kind
            &&& item.summary@ == summary
            &&& rust_item_fields(item, tree, n)
            &&& rust_children_are(item, tree, rust_child_decls(tree, n), item.children@.len() as nat)
            &&& item.children@.len() == rust_child_decls(tree, n).len()
            &&& rust_ready_among_siblings(item.children@, tree, rust_child_decls(tree, n))
        },
        None => false,
    }
}

/// Whether the first `k` children of `item` are, one by one, the items of `decls`.
pub open spec fn rust_children_are(item: AstItem, tree: SyntaxTree, decls: Seq<usize>, k: nat) -> bool
    decreases item, 0nat, k,
{
    if k == 0 {
        true
    } else if k > item.children@.len() || k > decls.len() {
        false
    } else {
        proof {
            assert(decreases_to!(item => item.children@[k - 1]));
        }
        rust_children_are(item, tree, decls, (k - 1) as nat) && rust_item_is(
            item.children@[k - 1],
            tree,
            decls[k - 1],
        )
    }
}

/// Whether `items` are, one by one, the items of `decls` (edit readiness aside).
pub open spec fn rust_items_are(items: Seq<AstItem>, tree: SyntaxTree, decls: Seq<usize>) -> bool {
    &&& items.len() == decls.len()
    &&& forall|k: int| 0 <= k < items.len() ==> rust_item_is(#[trigger] items[k], tree, decls[k])
}

proof fn lemma_rust_children_pointwise(item: AstItem, tree: SyntaxTree, decls: Seq<usize>, k: nat)
    requires
        k <= item.children@.len(),
        k <= decls.len(),
        forall|j: int| 0 <= j < k ==> rust_item_is(#[trigger] item.children@[j], tree, decls[j]),
    ensures
        rust_children_are(item, tree, decls, k),
    decreases k,
{
    if k > 0 {
        lemma_rust_children_pointwise(item, tree, decls, (k - 1) as nat);
    }
}

/// Marking overlapping siblings keeps the items of `decls`, now edit-ready where they own their
/// lines and share none with a sibling.
proof fn lemma_overlap_marks_rust_items(items: Seq<AstItem>, tree: SyntaxTree, decls: Seq<usize>)
    requires
        rust_items_are(items, tree, decls),
        rust_ready_as_owned(items, tree, decls),
    ensures
        rust_items_are(
            Seq::new(items.len(), |k: int| with_sibling_overlap(items, k)),
            tree,
            decls,
        ),
        rust_ready_among_siblings(
            Seq::new(items.len(), |k: int| with_sibling_overlap(items, k)),
            tree,
            decls,
        ),
{
    let marked = Seq::new(items.len(), |k: int| with_sibling_overlap(items, k));
    assert forall|k: int| 0 <= k < marked.len() implies (#[trigger] marked[k]).location.is_edit_ready
        == (rust_item_owns_lines(tree, decls[k]) && !overlaps_sibling(marked, k)) by {
        crate::outline::lemma_overlap_same_lines(items, marked, k);
    }
    assert forall|k: int| 0 <= k < marked.len() implies rust_item_is(
        #[trigger] marked[k],
        tree,
        decls[k],
    ) by {
        let a = items[k];
        let b = marked[k];
        assert(rust_item_is(a, tree, decls[k]));
        assert(b.children == a.children);
        let cd = rust_child_decls(tree, decls[k]);
        assert forall|j: int| 0 <= j < b.children@.len() implies rust_item_is(
            #[trigger] b.children@[j],
            tree,
            cd[j],
        ) by {
            lemma_rust_children_are_index(a, tree, cd, a.children@.len() as nat, j);
        }
        lemma_rust_children_pointwise(b, tree, cd, b.children@.len() as nat);
    }
}

proof fn lemma_rust_children_are_index(item: AstItem, tree: SyntaxTree, decls: Seq<usize>, k: nat, j: int)
    requires
        rust_children_are(item, tree, decls, k),
        0 <= j < k,
    ensures
        rust_item_is(item.children@[j], tree, decls[j]),
    decreases k,
{
    if j < k - 1 {
        lemma_rust_children_are_index(item, tree, decls, (k - 1) as nat, j);
    }
}

/// The parts of an item that come from its preamble and location.
fn rust_parts(
    tree: &SyntaxTree,
    render_node: usize,
    kind: AstItemKind,
    name: Option<Vec<char>>,
    summary: Vec<char>,
    signature: Option<Vec<char>>,
    body: Option<Vec<char>>,
) -> (r: ItemParts)
    requires
        tree.wf(),
        tree.valid_node(render_node),
    ensures
        r.kind == kind,
        r.summary@ == summary@,
        r.name == name,
        r.signature == signature,
        r.body == body,
        r.associated_type is None,
        r.inner_docs is None,
        opt_chars_view(r.docs) == joined_lines(
            preamble_texts(*tree, preamble_nodes(*tree, render_node), Some(true)).reverse(),
        ),
        opt_chars_view(r.attributes) == joined_lines(
            preamble_texts(*tree, preamble_nodes(*tree, render_node), Some(false)).reverse(),
        ),
        opt_chars_view(r.source_preamble) == joined_lines(
            preamble_texts(*tree, preamble_nodes(*tree, render_node), None).reverse(),
        ),
        rust_item_lines(*tree, render_node, r.location),
        r.location.is_edit_ready == rust_item_owns_lines(*tree, render_node),
{
    let preamble = item_preamble(tree, render_node);
    let location = location_for_rust_node(tree, render_node, &preamble);
    ItemParts {
        kind,
        name,
        associated_type: None,
        location,
        docs: preamble.docs,
        inner_docs: None,
        attributes: preamble.attributes,
        source_preamble: preamble.source_text,
        summary,
        signature,
        body,
    }
}

/// The supported items among the named children of `n`.
fn collect_supported_items(tree: &SyntaxTree, n: usize) -> (r: Vec<AstItem>)
    requires
        tree.wf(),
        tree.valid_node(n),
    ensures
        rust_items_are(r@, *tree, rust_decls(*tree, n)),
        rust_ready_as_owned(r@, *tree, rust_decls(*tree, n)),
    decreases tree.nodes@.len() - n, 3int,
{
    let children = tree.named_children(n);
    let ghost pred = |c: usize| rust_declares(*tree, c);
    let mut items: Vec<AstItem> = Vec::new();
    let mut k: usize = 0;
    while k < children.len()
        invariant
            tree.wf(),
            n < tree.nodes@.len(),
            children@ == tree.named_children_spec(n),
            k <= children@.len(),
            pred == (|c: usize| rust_declares(*tree, c)),
            forall|j: int| 0 <= j < children@.len() ==> n < #[trigger] children@[j] < tree.nodes@.len(),
            rust_items_are(items@, *tree, children@.subrange(0, k as int).filter(pred)),
            rust_ready_as_owned(items@, *tree, children@.subrange(0, k as int).filter(pred)),
        decreases children.len() - k,
    {
        let ghost before = items@;
        proof {
            let s = children@.subrange(0, k + 1);
            assert(s.drop_last() =~= children@.subrange(0, k as int));
            reveal_with_fuel(Seq::filter, 1);
        }
        match parse_item(tree, children[k]) {
            Some(item) => {
                items.push(item);
                proof {
                    let next = children@.subrange(0, k + 1).filter(pred);
                    assert(next == children@.subrange(0, k as int).filter(pred).push(children@[k as int]));
                    assert forall|j: int| 0 <= j < items@.len() implies rust_item_is(
                        #[trigger] items@[j],
                        *tree,
                        next[j],
                    ) && items@[j].location.is_edit_ready == rust_item_owns_lines(*tree, next[j]) by {
                        if j < before.len() {
                            assert(items@[j] == before[j]);
                        }
                    }
                }
            },
            None => {},
        }
        k = k + 1;
    }
    assert(children@.subrange(0, children@.len() as int) =~= children@);
    items
}

/// The supported items under the `body` field of `n`, with overlapping siblings marked.
fn body_items(tree: &SyntaxTree, n: usize, drop_macro_invocations: bool) -> (r: Vec<AstItem>)
    requires
        tree.wf(),
        tree.valid_node(n),
    ensures
        ({
            let decls = match tree.field_child(n, "body"@) {
                Some(b) => if drop_macro_invocations {
                    rust_decls(*tree, b).filter(|c: usize| not_macro_invocation(*tree, c))
                } else {
                    rust_decls(*tree, b)
                },
                None => Seq::empty(),
            };
            rust_items_are(r@, *tree, decls) && rust_ready_among_siblings(r@, *tree, decls)
        }),
    decreases tree.nodes@.len() - n, 1int,
{
    match tree.child_by_field(n, "body") {
        Some(body) => {
            let items = collect_supported_items(tree, body);
            let ghost decls = rust_decls(*tree, body);
            let ghost keep = |c: usize| not_macro_invocation(*tree, c);
            let ghost target = if drop_macro_invocations {
                decls.filter(keep)
            } else {
                decls
            };
            let mut kept: Vec<AstItem> = Vec::new();
            let mut rest = items;
            let ghost all = rest@;
            let ghost mut k: int = 0;
            while rest.len() > 0
                invariant
                    0 <= k,
                    k + rest@.len() == all.len(),
                    forall|x: int| 0 <= x < rest@.len() ==> rest@[x] == all[k + x],
                    rust_items_are(all, *tree, decls),
                    rust_ready_as_owned(all, *tree, decls),
                    keep == (|c: usize| not_macro_invocation(*tree, c)),
                    rust_items_are(
                        kept@,
                        *tree,
                        if drop_macro_invocations {
                            decls.subrange(0, k).filter(keep)
                        } else {
                            decls.subrange(0, k)
                        },
                    ),
                    rust_ready_as_owned(
                        kept@,
                        *tree,
                        if drop_macro_invocations {
                            decls.subrange(0, k).filter(keep)
                        } else {
                            decls.subrange(0, k)
                        },
                    ),
                decreases rest.len(),
            {
                let item = rest.remove(0);
                let ghost before = kept@;
                proof {
                    let s = decls.subrange(0, k + 1);
                    assert(s.drop_last() =~= decls.subrange(0, k));
                    reveal_with_fuel(Seq::filter, 1);
                    assert(item == all[k]);
                    assert(rust_item_is(item, *tree, decls[k]));
                }
                if !(drop_macro_invocations && item.kind == AstItemKind::MacroInvocation) {
                    kept.push(item);
                    proof {
                        let next = if drop_macro_invocations {
                            decls.subrange(0, k + 1).filter(keep)
                        } else {
                            decls.subrange(0, k + 1)
                        };
                        assert forall|j: int| 0 <= j < kept@.len() implies rust_item_is(
                            #[trigger] kept@[j],
                            *tree,
                            next[j],
                        ) && kept@[j].location.is_edit_ready == rust_item_owns_lines(*tree, next[j]) by {
                            if j < before.len() {
                                assert(kept@[j] == before[j]);
                            }
                        }
                    }
                }
                proof {
                    k = k + 1;
                }
            }
            assert(decls.subrange(0, all.len() as int) =~= decls);
            let r = mark_overlapping_siblings(kept);
            proof {
                lemma_overlap_marks_rust_items(kept@, *tree, target);
                assert(r@ =~= Seq::new(kept@.len(), |x: int| with_sibling_overlap(kept@, x)));
            }
            r
        },
        None => Vec::new(),
    }
}

/// The outline item of a Rust node, when its kind is one that outlines show.
fn parse_item(tree: &SyntaxTree, n: usize) -> (r: Option<AstItem>)
    requires
        tree.wf(),
        tree.valid_node(n),
    ensures
        r is Some <==> rust_declares(*tree, n),
        r matches Some(item) ==> rust_item_is(item, *tree, n),
        r matches Some(item) ==> item.location.is_edit_ready == rust_item_owns_lines(*tree, n),
    decreases tree.nodes@.len() - n, 2int,
{
    if tree.kind_is(n, "function_item") || tree.kind_is(n, "function_signature_item") {
        let name = name_or_anonymous(child_text_by_field(tree, n, "name"));
        let summary = prefixed("fn ", &name);
        let parts = rust_parts(
            tree,
            n,
            AstItemKind::Function,
            Some(name),
            summary,
            Some(signature_text(tree, n)),
            Some(tree.trimmed_node_text(n)),
        );
        let children = body_items(tree, n, true);
        let item = make_item(parts, children);
        proof {
            lemma_rust_children_pointwise(
                item,
                *tree,
                rust_child_decls(*tree, n),
                item.children@.len() as nat,
            );
        }
        return Some(item);
    }
    let simple: Option<(AstItemKind, &str)> = if tree.kind_is(n, "struct_item") {
        Some((AstItemKind::Struct, "struct "))
    } else if tree.kind_is(n, "enum_item") {
        Some((AstItemKind::Enum, "enum "))
    } else if tree.kind_is(n, "union_item") {
        Some((AstItemKind::Union, "union "))
    } else if tree.kind_is(n, "type_item") || tree.kind_is(n, "associated_type") {
        Some((AstItemKind::TypeAlias, "type "))
    } else if tree.kind_is(n, "const_item") {
        Some((AstItemKind::Const, "const "))
    } else if tree.kind_is(n, "static_item") {
        Some((AstItemKind::Static, "static "))
    } else {
        None
    };
    match simple {
        Some((kind, keyword)) => {
            let name = name_or_anonymous(child_text_by_field(tree, n, "name"));
            let summary = prefixed(keyword, &name);
            let parts = rust_parts(
                tree,
                n,
                kind,
                Some(name),
                summary,
                Some(signature_text(tree, n)),
                Some(tree.trimmed_node_text(n)),
            );
            let item = make_item(parts, Vec::new());
            proof {
                assert(rust_simple_item(tree.kind_of(n)) == Some((kind, keyword@)));
                assert(name@ == field_text_or(*tree, n, "name"@, "<anonymous>"@));
                assert(rust_item_head(*tree, n) == Some((kind, keyword@ + name@)));
                assert(rust_child_decls(*tree, n) =~= Seq::<usize>::empty());
                assert(item.children@.len() == 0);
            }
            return Some(item);
        },
        None => {},
    }
    if tree.kind_is(n, "trait_item") {
        let name = name_or_anonymous(child_text_by_field(tree, n, "name"));
        let summary = prefixed("trait ", &name);
        let parts = rust_parts(
            tree,
            n,
            AstItemKind::Trait,
            Some(name),
            summary,
            Some(signature_text(tree, n)),
            Some(tree.trimmed_node_text(n)),
        );
        let children = body_items(tree, n, false);
        let item = make_item(parts, children);
        proof {
            lemma_rust_children_pointwise(
                item,
                *tree,
                rust_child_decls(*tree, n),
                item.children@.len() as nat,
            );
        }
        return Some(item);
    }
    if tree.kind_is(n, "impl_item") {
        let target = match child_text_by_field(tree, n, "type") {
            Some(t) => t,
            None => chars_of("<unknown>"),
        };
        let associated_type = match tree.child_by_field(n, "type") {
            Some(t) => extract_nominal_type(tree, t),
            None => None,
        };
        let summary = match child_text_by_field(tree, n, "trait") {
            Some(trait_name) => {
                let mut s = prefixed("impl ", &trait_name);
                crate::text::push_str(&mut s, " for ");
                push_all(&mut s, &target);
                s
            },
            None => prefixed("impl ", &target),
        };
        let mut parts = rust_parts(
            tree,
            n,
            AstItemKind::Impl,
            None,
            summary,
            Some(signature_text(tree, n)),
            Some(tree.trimmed_node_text(n)),
        );
        parts.associated_type = associated_type;
        let children = body_items(tree, n, false);
        let item = make_item(parts, children);
        proof {
            lemma_rust_children_pointwise(
                item,
                *tree,
                rust_child_decls(*tree, n),
                item.children@.len() as nat,
            );
        }
        return Some(item);
    }
    if tree.kind_is(n, "mod_item") {
        let name = name_or_anonymous(child_text_by_field(tree, n, "name"));
        let summary = prefixed("mod ", &name);
        let mut parts = rust_parts(
            tree,
            n,
            AstItemKind::Module,
            Some(name),
            summary,
            Some(signature_text(tree, n)),
            Some(tree.trimmed_node_text(n)),
        );
        parts.inner_docs = match tree.child_by_field(n, "body") {
            Some(body) => inner_docs(tree, body),
            None => None,
        };
        let children = body_items(tree, n, false);
        let item = make_item(parts, children);
        proof {
            lemma_rust_children_pointwise(
                item,
                *tree,
                rust_child_decls(*tree, n),
                item.children@.len() as nat,
            );
        }
        return Some(item);
    }
    if tree.kind_is(n, "use_declaration") {
        let text = tree.trimmed_node_text(n);
        let name = child_text_by_field(tree, n, "argument");
        let signature = crate::text::copy_range(&text, 0, text.len());
        assert(text@.subrange(0, text@.len() as int) =~= text@);
        let parts = rust_parts(tree, n, AstItemKind::Use, name, text, Some(signature), None);
        let item = make_item(parts, Vec::new());
        assert(rust_child_decls(*tree, n) =~= Seq::<usize>::empty());
        return Some(item);
    }
    if tree.kind_is(n, "macro_definition") {
        let name = name_or_anonymous(child_text_by_field(tree, n, "name"));
        let summary = prefixed("macro_rules! ", &name);
        let signature = prefixed("macro_rules! ", &name);
        let parts = rust_parts(
            tree,
            n,
            AstItemKind::Macro,
            Some(name),
            summary,
            Some(signature),
            Some(tree.trimmed_node_text(n)),
        );
        return Some(make_item(parts, Vec::new()));
    }
    if tree.kind_is(n, "macro_invocation") {
        return Some(parse_macro_invocation(tree, n, n));
    }
    if tree.kind_is(n, "expression_statement") {
        let children = tree.named_children(n);
        let ghost head = match first_macro_child(*tree, n, 0) {
            Some(m) => Some((AstItemKind::MacroInvocation, macro_invocation_summary(*tree, m))),
            None => None,
        };
        assert(rust_item_head(*tree, n) == head);
        let ghost name = match first_macro_child(*tree, n, 0) {
            Some(m) => Some(field_text_or(*tree, m, "macro"@, "<anonymous>"@)),
            None => None,
        };
        assert(rust_item_name(*tree, n) == name);
        assert(rust_bodiless_item(*tree, n));
        assert(rust_item_associated_type(*tree, n) is None);
        assert(rust_item_inner_docs(*tree, n) is None);
        assert(rust_child_decls(*tree, n) =~= Seq::<usize>::empty());
        let mut k: usize = 0;
        while k < children.len()
            invariant
                tree.wf(),
                tree.valid_node(n),
                children@ == tree.named_children_spec(n),
                forall|j: int| 0 <= j < children@.len() ==> n < #[trigger] children@[j] < tree.nodes@.len(),
                first_macro_child(*tree, n, 0) == first_macro_child(*tree, n, k as int),
                rust_item_head(*tree, n) == head,
                rust_item_name(*tree, n) == name,
                name == match first_macro_child(*tree, n, 0) {
                    Some(m) => Some(field_text_or(*tree, m, "macro"@, "<anonymous>"@)),
                    None => None,
                },
                rust_bodiless_item(*tree, n),
                rust_item_associated_type(*tree, n) is None,
                rust_item_inner_docs(*tree, n) is None,
                rust_child_decls(*tree, n) == Seq::<usize>::empty(),
                head == match first_macro_child(*tree, n, 0) {
                    Some(m) => Some((AstItemKind::MacroInvocation, macro_invocation_summary(*tree, m))),
                    None => None,
                },
            decreases children.len() - k,
        {
            if tree.kind_is(children[k], "macro_invocation") {
                return Some(parse_macro_invocation(tree, n, children[k]));
            }
            k = k + 1;
        }
        return None;
    }
    if tree.kind_is(n, "foreign_mod_item") {
        let body = tree.child_by_field(n, "body");
        let signature = signature_text_with_body(tree, n, body);
        let summary = crate::text::copy_range(&signature, 0, signature.len());
        let parts = rust_parts(
            tree,
            n,
            AstItemKind::ForeignBlock,
            None,
            summary,
            Some(signature),
            Some(tree.trimmed_node_text(n)),
        );
        assert(rust_item_head(*tree, n) == Some((AstItemKind::ForeignBlock, summary@)));
        let ghost decls = rust_child_decls(*tree, n);
        assert(decls == match body {
            Some(b) => rust_decls(*tree, b),
            None => Seq::empty(),
        });
        let children = match body {
            Some(b) => {
                let collected = collect_supported_items(tree, b);
                let ghost c = collected@;
                let marked = mark_overlapping_siblings(collected);
                proof {
                    lemma_overlap_marks_rust_items(c, *tree, rust_decls(*tree, b));
                    assert(marked@ =~= Seq::new(c.len(), |x: int| with_sibling_overlap(c, x)));
                }
                marked
            },
            None => Vec::new(),
        };
        assert(rust_items_are(children@, *tree, decls));
        let item = make_item(parts, children);
        proof {
            lemma_rust_children_pointwise(
                item,
                *tree,
                rust_child_decls(*tree, n),
                item.children@.len() as nat,
            );
        }
        return Some(item);
    }
    None
}

fn parse_macro_invocation(tree: &SyntaxTree, render_node: usize, invocation: usize) -> (r: AstItem)
    requires
        tree.wf(),
        tree.valid_node(render_node),
        tree.valid_node(invocation),
    ensures
        r.kind == AstItemKind::MacroInvocation,
        r.summary@ == macro_invocation_summary(*tree, invocation),
        r.children@.len() == 0,
        opt_seq(r.name) == Some(field_text_or(*tree, invocation, "macro"@, "<anonymous>"@)),
        opt_seq(r.signature) == Some(node_text_spec(*tree, render_node)),
        r.body is None,
        r.associated_type is None,
        r.inner_docs is None,
        opt_seq(r.docs) == joined_lines(
            preamble_texts(*tree, preamble_nodes(*tree, render_node), Some(true)).reverse(),
        ),
        opt_seq(r.attributes) == joined_lines(
            preamble_texts(*tree, preamble_nodes(*tree, render_node), Some(false)).reverse(),
        ),
        opt_seq(r.source_preamble) == joined_lines(
            preamble_texts(*tree, preamble_nodes(*tree, render_node), None).reverse(),
        ),
        rust_item_lines(*tree, render_node, r.location),
        r.location.is_edit_ready == rust_item_owns_lines(*tree, render_node),
{
    let name = name_or_anonymous(child_text_by_field(tree, invocation, "macro"));
    let mut summary = prefixed("macro invocation ", &name);
    summary.push('!');
    let text = tree.trimmed_node_text(render_node);
    let parts = rust_parts(
        tree,
        render_node,
        AstItemKind::MacroInvocation,
        Some(name),
        summary,
        Some(text),
        None,
    );
    make_item(parts, Vec::new())
}

/// The outline of a parsed Rust file.
pub fn rust_file_ast(tree: &SyntaxTree) -> (r: FileAst)
    requires
        tree.wf(),
    ensures
        r.language == AstLanguage::Rust,
        r.has_errors == tree.nodes@[0].has_error,
        r.first_error == crate::outline::first_error_spec(*tree),
        opt_seq(r.root_docs) == inner_docs_spec(*tree, 0),
        rust_items_are(r.items@, *tree, rust_decls(*tree, 0)),
        rust_ready_among_siblings(r.items@, *tree, rust_decls(*tree, 0)),
{
    let collected = collect_supported_items(tree, 0);
    let ghost c = collected@;
    let items = mark_overlapping_siblings(collected);
    proof {
        lemma_overlap_marks_rust_items(c, *tree, rust_decls(*tree, 0));
        assert(items@ =~= Seq::new(c.len(), |x: int| with_sibling_overlap(c, x)));
    }
    FileAst {
        language: AstLanguage::Rust,
        root_docs: opt_string(inner_docs(tree, 0)),
        items,
        has_errors: tree.nodes[0].has_error,
        first_error: first_syntax_error(tree),
    }
}

} // verus!
