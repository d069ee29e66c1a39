//! Outlines of Python source files.
use vstd::prelude::*;

use crate::outline::{
    opt_seq, overlaps_sibling, dedent_spec, dedent_source_block, first_syntax_error, mark_overlapping_siblings,
    with_sibling_overlap, AstItem, AstItemKind, AstLanguage, FileAst,
};
use crate::outline_common::{
    child_text_by_field, field_text_or, location_for_node, make_item, node_lines, node_location,
    node_owns_lines, name_or_anonymous, node_text_spec,
    opt_chars_view, opt_string, prefixed, signature_spec, signature_text, source_indent_for_node,
    source_indent_spec, ItemParts,
};
use crate::syntax::SyntaxTree;
use crate::text::{chars_of, contains_char, starts_with, starts_with_str, trimmed, trimmed_range};

verus! {

/// The position of the first quote of `text` at or after `i`, or the length of `text`.
pub open spec fn quote_index(text: Seq<char>, i: int) -> int
    decreases text.len() - i,
{
    if i >= text.len() || text[i] == '\'' || text[i] == '"' {
        i
    } else {
        quote_index(text, i + 1)
    }
}

/// Whether the prefix of a string's text (what comes before its first quote) holds none of the
/// letters `b`, `f` and `t`, in either case.
pub open spec fn plain_string_prefix(text: Seq<char>) -> bool {
    let prefix = text.subrange(0, quote_index(text, 0));
    &&& !prefix.contains('b')
    &&& !prefix.contains('B')
    &&& !prefix.contains('f')
    &&& !prefix.contains('F')
    &&& !prefix.contains('t')
    &&& !prefix.contains('T')
}

/// Whether string node `n` is a plain string literal: a `string` without interpolation and
/// with a plain prefix, or a concatenation of at least one such literal (comments aside) and
/// nothing else.
pub open spec fn python_string_literal(tree: SyntaxTree, n: usize) -> bool
    decreases tree.nodes@.len() - n, 1nat, 0nat,
{
    let children = tree.named_children_spec(n);
    if n >= tree.nodes@.len() {
        false
    } else if tree.kind_of(n) == "concatenated_string"@ {
        concatenation_of_literals(tree, n, 0, false)
    } else if tree.kind_of(n) == "string"@ {
        &&& forall|j: int|
            0 <= j < children.len() ==> tree.kind_of(#[trigger] children[j]) != "interpolation"@
        &&& plain_string_prefix(node_text_spec(tree, n))
    } else {
        false
    }
}

/// Whether the named children of concatenation `n` from position `k` on are, comments aside,
/// plain string literals; `found` tells whether one was seen before, and one must be.
pub open spec fn concatenation_of_literals(tree: SyntaxTree, n: usize, k: int, found: bool) -> bool
    decreases tree.nodes@.len() - n, 0nat, tree.named_children_spec(n).len() - k,
{
    let children = tree.named_children_spec(n);
    if k < 0 || k >= children.len() || n >= tree.nodes@.len() {
        found
    } else {
        let c = children[k];
        if tree.kind_of(c) == "comment"@ {
            concatenation_of_literals(tree, n, k + 1, found)
        } else if n < c < tree.nodes@.len() && python_string_literal(tree, c) {
            concatenation_of_literals(tree, n, k + 1, true)
        } else {
            false
        }
    }
}

/// Whether a string node is a plain string literal: no interpolation and no `b`, `f` or `t`
/// prefix; a concatenation of such literals (comments aside) also is one.
fn is_python_string_literal(tree: &SyntaxTree, n: usize) -> (r: bool)
    requires
        tree.wf(),
        tree.valid_node(n),
    ensures
        r == python_string_literal(*tree, n),
    decreases tree.nodes@.len() - n,
{
    if tree.kind_is(n, "concatenated_string") {
        let children = tree.named_children(n);
        let mut found_string = false;
        let mut k: usize = 0;
        while k < children.len()
            invariant
                tree.wf(),
                n < tree.nodes@.len(),
                k <= children@.len(),
                children@ == tree.named_children_spec(n),
                forall|j: int| 0 <= j < children@.len() ==> n < #[trigger] children@[j] < tree.nodes@.len(),
                concatenation_of_literals(*tree, n, k as int, found_string) == concatenation_of_literals(
                    *tree,
                    n,
                    0,
                    false,
                ),
                python_string_literal(*tree, n) == concatenation_of_literals(*tree, n, 0, false),
            decreases children.len() - k,
        {
            let child = children[k];
            if !tree.kind_is(child, "comment") {
                if !is_python_string_literal(tree, child) {
                    return false;
                }
                found_string = true;
            }
            k = k + 1;
        }
        return found_string;
    }
    if tree.kind_is(n, "string") {
        let children = tree.named_children(n);
        let mut k: usize = 0;
        while k < children.len()
            invariant
                tree.wf(),
                n < tree.nodes@.len(),
                k <= children@.len(),
                children@ == tree.named_children_spec(n),
                tree.kind_of(n) == "string"@,
                tree.kind_of(n) != "concatenated_string"@,
                forall|j: int| 0 <= j < children@.len() ==> n < #[trigger] children@[j] < tree.nodes@.len(),
                forall|j: int| 0 <= j < k ==> tree.kind_of(#[trigger] children@[j]) != "interpolation"@,
            decreases children.len() - k,
        {
            if tree.kind_is(children[k], "interpolation") {
                return false;
            }
            k = k + 1;
        }
        let text = tree.trimmed_node_text(n);
        let mut i: usize = 0;
        let mut prefix: Vec<char> = Vec::new();
        while i < text.len() && text[i] != '\'' && text[i] != '"'
            invariant
                i <= text@.len(),
                prefix@ == text@.subrange(0, i as int),
                quote_index(text@, i as int) == quote_index(text@, 0),
            decreases text.len() - i,
        {
            prefix.push(text[i]);
            i = i + 1;
            assert(prefix@ =~= text@.subrange(0, i as int));
        }
        // Prefix letters are case-insensitive.
        return !contains_char(&prefix, 'b') && !contains_char(&prefix, 'B') && !contains_char(
            &prefix,
            'f',
        ) && !contains_char(&prefix, 'F') && !contains_char(&prefix, 't') && !contains_char(
            &prefix,
            'T',
        );
    }
    false
}

/// The first named child of `n` from position `k` on that is not a comment.
pub open spec fn first_non_comment(tree: SyntaxTree, n: usize, k: int) -> Option<usize>
    decreases tree.named_children_spec(n).len() - k,
{
    let children = tree.named_children_spec(n);
    if k < 0 || k >= children.len() {
        None
    } else if tree.kind_of(children[k]) != "comment"@ {
        Some(children[k])
    } else {
        first_non_comment(tree, n, k + 1)
    }
}

/// The expression that node `n` wraps in parentheses, past comments: `n` itself when it is not
/// parenthesized, none when the parentheses hold nothing else.
pub open spec fn unwrapped_expression(tree: SyntaxTree, n: usize) -> Option<usize>
    decreases tree.nodes@.len() - n,
{
    if n >= tree.nodes@.len() {
        None
    } else if tree.kind_of(n) == "parenthesized_expression"@ {
        match first_non_comment(tree, n, 0) {
            Some(m) => if n < m < tree.nodes@.len() {
                unwrapped_expression(tree, m)
            } else {
                None
            },
            None => None,
        }
    } else {
        Some(n)
    }
}

/// Steps into parentheses, past comments, to the wrapped expression.
fn unwrap_parenthesized_expression(tree: &SyntaxTree, n: usize) -> (r: Option<usize>)
    requires
        tree.wf(),
        tree.valid_node(n),
    ensures
        r matches Some(m) ==> tree.valid_node(m),
        r == unwrapped_expression(*tree, n),
{
    let mut node = n;
    while tree.kind_is(node, "parenthesized_expression")
        invariant
            tree.wf(),
            tree.valid_node(node),
            unwrapped_expression(*tree, node) == unwrapped_expression(*tree, n),
        decreases tree.nodes@.len() - node,
    {
        let children = tree.named_children(node);
        let mut next: Option<usize> = None;
        let mut k: usize = 0;
        while k < children.len()
            invariant_except_break
                next is None,
            invariant
                tree.wf(),
                tree.valid_node(node),
                k <= children@.len(),
                children@ == tree.named_children_spec(node),
                forall|j: int| 0 <= j < children@.len() ==> node < #[trigger] children@[j] < tree.nodes@.len(),
                first_non_comment(*tree, node, k as int) == first_non_comment(*tree, node, 0),
            ensures
                next == first_non_comment(*tree, node, 0),
                next matches Some(m) ==> node < m < tree.nodes@.len(),
            decreases children.len() - k,
        {
            if !tree.kind_is(children[k], "comment") {
                next = Some(children[k]);
                break;
            }
            k = k + 1;
        }
        match next {
            Some(m) => node = m,
            None => return None,
        }
    }
    Some(node)
}

/// The docstring that a statement holds: the text of the plain string literal that an
/// expression statement's first part is, parentheses aside.
pub open spec fn python_docstring_of(tree: SyntaxTree, n: usize) -> Option<Seq<char>> {
    let children = tree.named_children_spec(n);
    if tree.kind_of(n) != "expression_statement"@ || children.len() == 0 {
        None
    } else {
        match unwrapped_expression(tree, children[0]) {
            Some(v) => if python_string_literal(tree, v) {
                Some(node_text_spec(tree, v))
            } else {
                None
            },
            None => None,
        }
    }
}

/// The docstring of a block: that of its first statement that is not a comment.
pub open spec fn python_body_docstring(tree: SyntaxTree, body: usize) -> Option<Seq<char>> {
    match first_non_comment(tree, body, 0) {
        Some(c) => python_docstring_of(tree, c),
        None => None,
    }
}

/// The docstring that an expression statement holds, when it is a plain string literal.
fn extract_python_docstring(tree: &SyntaxTree, n: usize) -> (r: Option<Vec<char>>)
    requires
        tree.wf(),
        tree.valid_node(n),
    ensures
        opt_chars_view(r) == python_docstring_of(*tree, n),
{
    if !tree.kind_is(n, "expression_statement") {
        return None;
    }
    let children = tree.named_children(n);
    if children.len() == 0 {
        return None;
    }
    let value = match unwrap_parenthesized_expression(tree, children[0]) {
        Some(v) => v,
        None => return None,
    };
    if !is_python_string_literal(tree, value) {
        return None;
    }
    Some(tree.trimmed_node_text(value))
}

/// The docstring of a block: its first statement that is not a comment, if a string.
fn docstring_for_body(tree: &SyntaxTree, body: usize) -> (r: Option<Vec<char>>)
    requires
        tree.wf(),
        tree.valid_node(body),
    ensures
        opt_chars_view(r) == python_body_docstring(*tree, body),
{
    let children = tree.named_children(body);
    let mut k: usize = 0;
    while k < children.len()
        invariant
            tree.wf(),
            k <= children@.len(),
            children@ == tree.named_children_spec(body),
            forall|j: int| 0 <= j < children@.len() ==> body < #[trigger] children@[j] < tree.nodes@.len(),
            first_non_comment(*tree, body, k as int) == first_non_comment(*tree, body, 0),
        decreases children.len() - k,
    {
        if !tree.kind_is(children[k], "comment") {
            return extract_python_docstring(tree, children[k]);
        }
        k = k + 1;
    }
    None
}

/// The last `:` among the children of `definition` from position `k` on, or `seen`, the last
/// one before.
pub open spec fn last_colon_from(tree: SyntaxTree, definition: usize, k: int, seen: Option<usize>) -> Option<
    usize,
>
    decreases tree.nodes@[definition as int].children@.len() - k,
{
    let children = tree.nodes@[definition as int].children@;
    if k < 0 || k >= children.len() {
        seen
    } else {
        last_colon_from(
            tree,
            definition,
            k + 1,
            if tree.kind_of(children[k]) == ":"@ {
                Some(children[k])
            } else {
                seen
            },
        )
    }
}

/// The header of a definition, dedented by the source indentation of `render_node`: from the
/// start of `render_node` (decorators included) to the end of the definition's last `:`,
/// trimmed, or without a `:`, the definition's text up to its body.
pub open spec fn python_signature_spec(tree: SyntaxTree, render_node: usize, definition: usize) -> Seq<
    char,
> {
    let header = match last_colon_from(tree, definition, 0, None) {
        Some(c) => {
            let start = tree.nodes@[render_node as int].start;
            let stop = tree.nodes@[c as int].end;
            if start <= stop {
                trimmed(tree.source@.subrange(start as int, stop as int))
            } else {
                trimmed(tree.source@.subrange(stop as int, stop as int))
            }
        },
        None => signature_spec(tree, definition, tree.field_child(definition, "body"@)),
    };
    dedent_spec(header, source_indent_spec(tree, render_node))
}

/// The text of node `n`, dedented by its source indentation.
pub open spec fn python_source_spec(tree: SyntaxTree, n: usize) -> Seq<char> {
    dedent_spec(node_text_spec(tree, n), source_indent_spec(tree, n))
}

/// The header of a definition, from the start of `render_node` (decorators included) to the
/// definition's last `:` token, dedented by the source indentation.
fn python_signature_text(tree: &SyntaxTree, render_node: usize, definition: usize) -> (r: Vec<char>)
    requires
        tree.wf(),
        tree.valid_node(render_node),
        tree.valid_node(definition),
    ensures
        r@ == python_signature_spec(*tree, render_node, definition),
{
    let children = tree.children_of(definition);
    let mut colon: Option<usize> = None;
    let mut k: usize = 0;
    while k < children.len()
        invariant
            tree.wf(),
            k <= children@.len(),
            children@ == tree.nodes@[definition as int].children@,
            forall|j: int| 0 <= j < children@.len() ==> definition < #[trigger] children@[j] < tree.nodes@.len(),
            colon matches Some(c) ==> tree.valid_node(c),
            last_colon_from(*tree, definition, k as int, colon) == last_colon_from(
                *tree,
                definition,
                0,
                None,
            ),
        decreases children.len() - k,
    {
        if tree.kind_is(children[k], ":") {
            colon = Some(children[k]);
        }
        k = k + 1;
    }
    let signature = match colon {
        Some(c) => {
            let start = tree.nodes[render_node].start;
            let stop = tree.nodes[c].end;
            assert(tree.nodes@[c as int].start <= tree.nodes@[c as int].end);
            if start <= stop {
                trimmed_range(&tree.source, start, stop)
            } else {
                trimmed_range(&tree.source, stop, stop)
            }
        },
        None => signature_text(tree, definition),
    };
    let indent = source_indent_for_node(tree, render_node);
    dedent_source_block(&signature, &indent)
}

/// The source of a node, dedented by its source indentation.
fn python_source_text(tree: &SyntaxTree, n: usize) -> (r: Vec<char>)
    requires
        tree.wf(),
        tree.valid_node(n),
    ensures
        r@ == python_source_spec(*tree, n),
{
    let text = tree.trimmed_node_text(n);
    let indent = source_indent_for_node(tree, n);
    dedent_source_block(&text, &indent)
}

/// The first identifier under a type alias's left-hand side, in pre-order.
fn python_type_alias_name(tree: &SyntaxTree, n: usize) -> (r: Option<usize>)
    requires
        tree.wf(),
        tree.valid_node(n),
    ensures
        r matches Some(m) ==> tree.valid_node(m),
        r == first_identifier(*tree, n),
    decreases tree.nodes@.len() - n,
{
    if tree.kind_is(n, "identifier") {
        return Some(n);
    }
    let children = tree.named_children(n);
    let mut k: usize = 0;
    while k < children.len()
        invariant
            tree.wf(),
            n < tree.nodes@.len(),
            children@ == tree.named_children_spec(n),
            forall|j: int| 0 <= j < children@.len() ==> n < #[trigger] children@[j] < tree.nodes@.len(),
            first_identifier(*tree, n) == first_identifier_among(*tree, n, k as int),
        decreases children.len() - k,
    {
        match python_type_alias_name(tree, children[k]) {
            Some(m) => return Some(m),
            None => {},
        }
        k = k + 1;
    }
    None
}

/// The first identifier under `n`, in pre-order.
pub open spec fn first_identifier(tree: SyntaxTree, n: usize) -> Option<usize>
    decreases tree.nodes@.len() - n, 1nat, 0nat,
{
    if n >= tree.nodes@.len() {
        None
    } else if tree.kind_of(n) == "identifier"@ {
        Some(n)
    } else {
        first_identifier_among(tree, n, 0)
    }
}

/// The first identifier under the named children of `n` from position `k` on, in pre-order.
pub open spec fn first_identifier_among(tree: SyntaxTree, n: usize, k: int) -> Option<usize>
    decreases tree.nodes@.len() - n, 0nat, tree.named_children_spec(n).len() - k,
{
    let children = tree.named_children_spec(n);
    if k < 0 || k >= children.len() || n >= tree.nodes@.len() {
        None
    } else {
        let c = children[k];
        let found = if n < c < tree.nodes@.len() {
            first_identifier(tree, c)
        } else {
            None
        };
        match found {
            Some(m) => Some(m),
            None => first_identifier_among(tree, n, k + 1),
        }
    }
}

/// The first named child of `n` from position `k` on that is a function or class definition.
pub open spec fn first_definition_child(tree: SyntaxTree, n: usize, k: int) -> Option<usize>
    decreases tree.named_children_spec(n).len() - k,
{
    let children = tree.named_children_spec(n);
    if k < 0 || k >= children.len() {
        None
    } else if tree.kind_of(children[k]) == "function_definition"@ || tree.kind_of(children[k])
        == "class_definition"@ {
        Some(children[k])
    } else {
        first_definition_child(tree, n, k + 1)
    }
}

/// The summary of a definition: `class name`, or `def name` (`async def name` for a function
/// whose header starts so).
pub open spec fn python_definition_summary(tree: SyntaxTree, definition: usize) -> Seq<char> {
    let name = match tree.field_child(definition, "name"@) {
        Some(c) => node_text_spec(tree, c),
        None => "<anonymous>"@,
    };
    if tree.kind_of(definition) == "class_definition"@ {
        "class "@ + name
    } else if starts_with(
        signature_spec(tree, definition, tree.field_child(definition, "body"@)),
        "async def "@,
    ) {
        "async def "@ + name
    } else {
        "def "@ + name
    }
}

/// The definition that a Python node gives an item for: itself, or for a decorated
/// definition the definition it decorates; `None` for a type alias and for anything else.
pub open spec fn python_definition_of(tree: SyntaxTree, n: usize) -> Option<usize> {
    let kind = tree.kind_of(n);
    if kind == "function_definition"@ || kind == "class_definition"@ {
        Some(n)
    } else if kind == "decorated_definition"@ {
        first_definition_child(tree, n, 0)
    } else {
        None
    }
}

/// The name of a type alias: its first identifier on the left-hand side, or `<anonymous>`.
pub open spec fn python_alias_name(tree: SyntaxTree, n: usize) -> Seq<char> {
    match tree.field_child(n, "left"@) {
        Some(left) => match first_identifier(tree, left) {
            Some(m) => node_text_spec(tree, m),
            None => "<anonymous>"@,
        },
        None => "<anonymous>"@,
    }
}

/// The item that a Python node gives, when it gives one: its kind and its summary.
pub open spec fn python_item_head(tree: SyntaxTree, n: usize) -> Option<(AstItemKind, Seq<char>)> {
    let kind = tree.kind_of(n);
    if kind == "function_definition"@ {
        Some((AstItemKind::Function, python_definition_summary(tree, n)))
    } else if kind == "class_definition"@ {
        Some((AstItemKind::Class, python_definition_summary(tree, n)))
    } else if kind == "decorated_definition"@ {
        match first_definition_child(tree, n, 0) {
            Some(d) => Some(
                (
                    if tree.kind_of(d) == "function_definition"@ {
                        AstItemKind::Function
                    } else {
                        AstItemKind::Class
                    },
                    python_definition_summary(tree, d),
                ),
            ),
            None => None,
        }
    } else if kind == "type_alias_statement"@ {
        Some((AstItemKind::TypeAlias, "type "@ + python_alias_name(tree, n)))
    } else {
        None
    }
}

/// The nodes below `n` whose items a Python outline shows: each named child that gives an
/// item, and what any other named child holds, in order.
pub open spec fn python_decls(tree: SyntaxTree, n: usize) -> Seq<usize>
    decreases tree.nodes@.len() - n, 1nat, 0nat,
{
    python_decls_upto(tree, n, tree.named_children_spec(n).len())
}

/// What the first `k` named children of `n` yield.
pub open spec fn python_decls_upto(tree: SyntaxTree, n: usize, k: nat) -> Seq<usize>
    decreases tree.nodes@.len() - n, 0nat, k,
{
    let children = tree.named_children_spec(n);
    if k == 0 || k > children.len() || n >= tree.nodes@.len() {
        Seq::empty()
    } else {
        let c = children[k - 1];
        let before = python_decls_upto(tree, n, (k - 1) as nat);
        if python_item_head(tree, c) is Some {
            before.push(c)
        } else if n < c < tree.nodes@.len() {
            before + python_decls(tree, c)
        } else {
            before
        }
    }
}

/// The nodes whose items are the children of the item of `n`: the items of the body of its
/// definition.
pub open spec fn python_child_decls(tree: SyntaxTree, n: usize) -> Seq<usize> {
    match python_definition_of(tree, n) {
        Some(d) => match tree.field_child(d, "body"@) {
            Some(b) => python_decls(tree, b),
            None => Seq::empty(),
        },
        None => Seq::empty(),
    }
}

/// The name, docs, signature and body that the item of node `n` has: for a definition its
/// name, the docstring of its body, its header and its source; for a type alias its name and
/// its source (as signature and body).
pub open spec fn python_item_texts(item: AstItem, tree: SyntaxTree, n: usize) -> bool {
    match python_definition_of(tree, n) {
        Some(d) => {
            &&& opt_seq(item.name) == Some(field_text_or(tree, d, "name"@, "<anonymous>"@))
            &&& opt_seq(item.docs) == match tree.field_child(d, "body"@) {
                Some(b) => python_body_docstring(tree, b),
                None => None,
            }
            &&& opt_seq(item.signature) == Some(python_signature_spec(tree, n, d))
            &&& opt_seq(item.body) == Some(python_source_spec(tree, n))
        },
        None => {
            &&& opt_seq(item.name) == Some(python_alias_name(tree, n))
            &&& item.docs is None
            &&& opt_seq(item.signature) == Some(python_source_spec(tree, n))
            &&& opt_seq(item.body) == Some(python_source_spec(tree, n))
        },
    }
}

/// The texts and lines of the item of node `n`; Python items have no associated type, inner
/// docs, attributes or preamble.
pub open spec fn python_item_fields(item: AstItem, tree: SyntaxTree, n: usize) -> bool {
    &&& python_item_texts(item, tree, n)
    &&& item.associated_type is None
    &&& item.inner_docs is None
    &&& item.attributes is None
    &&& item.source_preamble is None
    &&& node_lines(tree, n, item.location)
}

/// Whether items are edit-ready exactly where their nodes own their lines.
pub open spec fn python_ready_as_owned(items: Seq<AstItem>, tree: SyntaxTree, decls: Seq<usize>) -> bool {
    forall|k: int|
        0 <= k < items.len() ==> (#[trigger] items[k]).location.is_edit_ready == node_owns_lines(
            tree,
            decls[k],
        )
}

/// Whether items are edit-ready exactly where their nodes own their lines and they share none
/// with a sibling.
pub open spec fn python_ready_among_siblings(items: Seq<AstItem>, tree: SyntaxTree, decls: Seq<usize>) -> bool {
    forall|k: int|
        0 <= k < items.len() ==> (#[trigger] items[k]).location.is_edit_ready == (node_owns_lines(
            tree,
            decls[k],
        ) && !overlaps_sibling(items, k))
}

/// Whether `item` is the item of node `n`: its kind, summary, texts and lines, and, one by
/// one, its children.
pub open spec fn python_item_is(item: AstItem, tree: SyntaxTree, n: usize) -> bool
    decreases item, 1nat, 0nat,
{
    match python_item_head(tree, n) {
        Some((kind, summary)) => {
            &&& item.kind == kind
            &&& item.summary@ == summary
            &&& python_item_fields(item, tree, n)
            &&& item.children@.len() == python_child_decls(tree, n).len()
            &&& python_children_are(item, tree, python_child_decls(tree, n), item.children@.len() as nat)
            &&& python_ready_among_siblings(item.children@, tree, python_child_decls(tree, n))
        },
        None => false,
    }
}

/// Whether the first `k` children of `item` are, one by one, the items of `decls`.
pub open spec fn python_children_are(item: AstItem, tree: SyntaxTree, decls: Seq<usize>, k: nat) -> bool
    decreases item, 0nat, k,
{
    if k == 0 {
        true
    } else if k > item.children@.len() || k > decls.len() {
        false
    } else {
        proof {
            assert(decreases_to!(item => item.children@[k - 1]));
        }
        python_children_are(item, tree, decls, (k - 1) as nat) && python_item_is(
            item.children@[k - 1],
            tree,
            decls[k - 1],
        )
    }
}

/// Whether `items` are, one by one, the items of `decls` (edit readiness aside).
pub open spec fn python_items_are(items: Seq<AstItem>, tree: SyntaxTree, decls: Seq<usize>) -> bool {
    &&& items.len() == decls.len()
    &&& forall|k: int| 0 <= k < items.len() ==> python_item_is(#[trigger] items[k], tree, decls[k])
}

proof fn lemma_python_children_pointwise(item: AstItem, tree: SyntaxTree, decls: Seq<usize>, k: nat)
    requires
        k <= item.children@.len(),
        k <= decls.len(),
        forall|j: int| 0 <= j < k ==> python_item_is(#[trigger] item.children@[j], tree, decls[j]),
    ensures
        python_children_are(item, tree, decls, k),
    decreases k,
{
    if k > 0 {
        lemma_python_children_pointwise(item, tree, decls, (k - 1) as nat);
    }
}

proof fn lemma_python_children_are_index(item: AstItem, tree: SyntaxTree, decls: Seq<usize>, k: nat, j: int)
    requires
        python_children_are(item, tree, decls, k),
        0 <= j < k,
    ensures
        python_item_is(item.children@[j], tree, decls[j]),
    decreases k,
{
    if j < k - 1 {
        lemma_python_children_are_index(item, tree, decls, (k - 1) as nat, j);
    }
}

/// Marking overlapping siblings keeps the items of `decls`, now edit-ready where they own their
/// lines and share none with a sibling.
proof fn lemma_overlap_marks_python_items(items: Seq<AstItem>, tree: SyntaxTree, decls: Seq<usize>)
    requires
        python_items_are(items, tree, decls),
        python_ready_as_owned(items, tree, decls),
    ensures
        python_items_are(
            Seq::new(items.len(), |k: int| with_sibling_overlap(items, k)),
            tree,
            decls,
        ),
        python_ready_among_siblings(
            Seq::new(items.len(), |k: int| with_sibling_overlap(items, k)),
            tree,
            decls,
        ),
{
    let marked = Seq::new(items.len(), |k: int| with_sibling_overlap(items, k));
    assert forall|k: int| 0 <= k < marked.len() implies (#[trigger] marked[k]).location.is_edit_ready
        == (node_owns_lines(tree, decls[k]) && !overlaps_sibling(marked, k)) by {
        crate::outline::lemma_overlap_same_lines(items, marked, k);
    }
    assert forall|k: int| 0 <= k < marked.len() implies python_item_is(
        #[trigger] marked[k],
        tree,
        decls[k],
    ) by {
        let a = items[k];
        let b = marked[k];
        assert(python_item_is(a, tree, decls[k]));
        assert(b.children == a.children);
        let cd = python_child_decls(tree, decls[k]);
        assert forall|j: int| 0 <= j < b.children@.len() implies python_item_is(
            #[trigger] b.children@[j],
            tree,
            cd[j],
        ) by {
            lemma_python_children_are_index(a, tree, cd, a.children@.len() as nat, j);
        }
        lemma_python_children_pointwise(b, tree, cd, b.children@.len() as nat);
    }
}

/// The items defined under `n`: definitions found directly or inside any other statement.
fn collect_python_supported_items(tree: &SyntaxTree, n: usize) -> (r: Vec<AstItem>)
    requires
        tree.wf(),
        tree.valid_node(n),
    ensures
        python_items_are(r@, *tree, python_decls(*tree, n)),
        python_ready_as_owned(r@, *tree, python_decls(*tree, n)),
    decreases tree.nodes@.len() - n, 3int,
{
    let children = tree.named_children(n);
    let mut items: Vec<AstItem> = Vec::new();
    let mut k: usize = 0;
    while k < children.len()
        invariant
            tree.wf(),
            n < tree.nodes@.len(),
            children@ == tree.named_children_spec(n),
            k <= children@.len(),
            forall|j: int| 0 <= j < children@.len() ==> n < #[trigger] children@[j] < tree.nodes@.len(),
            python_items_are(items@, *tree, python_decls_upto(*tree, n, k as nat)),
            python_ready_as_owned(items@, *tree, python_decls_upto(*tree, n, k as nat)),
        decreases children.len() - k,
    {
        let child = children[k];
        let ghost before = items@;
        let ghost prev = python_decls_upto(*tree, n, k as nat);
        match parse_python_item(tree, child) {
            Some(item) => {
                items.push(item);
                proof {
                    let next = python_decls_upto(*tree, n, (k + 1) as nat);
                    assert(next == prev.push(child));
                    assert forall|j: int| 0 <= j < items@.len() implies python_item_is(
                        #[trigger] items@[j],
                        *tree,
                        next[j],
                    ) && items@[j].location.is_edit_ready == node_owns_lines(*tree, next[j]) by {
                        if j < before.len() {
                            assert(items@[j] == before[j]);
                        }
                    }
                }
            },
            None => {
                let mut nested = collect_python_supported_items(tree, child);
                let ghost more = nested@;
                items.append(&mut nested);
                proof {
                    let next = python_decls_upto(*tree, n, (k + 1) as nat);
                    let inner = python_decls(*tree, child);
                    assert(next == prev + inner);
                    assert forall|j: int| 0 <= j < items@.len() implies python_item_is(
                        #[trigger] items@[j],
                        *tree,
                        next[j],
                    ) && items@[j].location.is_edit_ready == node_owns_lines(*tree, next[j]) by {
                        if j < before.len() {
                            assert(items@[j] == before[j]);
                        } else {
                            assert(items@[j] == more[j - before.len()]);
                            assert(next[j] == inner[j - before.len()]);
                        }
                    }
                }
            },
        }
        k = k + 1;
    }
    items
}

fn parse_python_item(tree: &SyntaxTree, n: usize) -> (r: Option<AstItem>)
    requires
        tree.wf(),
        tree.valid_node(n),
    ensures
        r is Some <==> python_item_head(*tree, n) is Some,
        r matches Some(item) ==> python_item_is(item, *tree, n),
        r matches Some(item) ==> item.location.is_edit_ready == node_owns_lines(*tree, n),
    decreases tree.nodes@.len() - n, 2int,
{
    proof {
        reveal_strlit("function_definition");
        reveal_strlit("class_definition");
        assert("function_definition"@.len() != "class_definition"@.len());
    }
    if tree.kind_is(n, "function_definition") {
        let item = parse_python_definition(tree, n, n, false);
        proof {
            lemma_python_children_pointwise(
                item,
                *tree,
                python_child_decls(*tree, n),
                item.children@.len() as nat,
            );
        }
        return Some(item);
    }
    if tree.kind_is(n, "class_definition") {
        let item = parse_python_definition(tree, n, n, true);
        proof {
            lemma_python_children_pointwise(
                item,
                *tree,
                python_child_decls(*tree, n),
                item.children@.len() as nat,
            );
        }
        return Some(item);
    }
    if tree.kind_is(n, "decorated_definition") {
        let children = tree.named_children(n);
        let mut k: usize = 0;
        while k < children.len()
            invariant
                tree.wf(),
                tree.valid_node(n),
                tree.kind_of(n) == "decorated_definition"@,
                tree.kind_of(n) != "function_definition"@,
                tree.kind_of(n) != "class_definition"@,
                children@ == tree.named_children_spec(n),
                forall|j: int| 0 <= j < children@.len() ==> n < #[trigger] children@[j] < tree.nodes@.len(),
                first_definition_child(*tree, n, 0) == first_definition_child(*tree, n, k as int),
                "function_definition"@ != "class_definition"@,
            decreases children.len() - k,
        {
            let child = children[k];
            if tree.kind_is(child, "function_definition") {
                let item = parse_python_definition(tree, n, child, false);
                proof {
                    lemma_python_children_pointwise(
                        item,
                        *tree,
                        python_child_decls(*tree, n),
                        item.children@.len() as nat,
                    );
                }
                return Some(item);
            }
            if tree.kind_is(child, "class_definition") {
                let item = parse_python_definition(tree, n, child, true);
                proof {
                    lemma_python_children_pointwise(
                        item,
                        *tree,
                        python_child_decls(*tree, n),
                        item.children@.len() as nat,
                    );
                }
                return Some(item);
            }
            k = k + 1;
        }
        return None;
    }
    if tree.kind_is(n, "type_alias_statement") {
        let name = match tree.child_by_field(n, "left") {
            Some(left) => match python_type_alias_name(tree, left) {
                Some(m) => Some(tree.trimmed_node_text(m)),
                None => None,
            },
            None => None,
        };
        let name = name_or_anonymous(name);
        assert(name@ == python_alias_name(*tree, n));
        assert(name@.subrange(0, name@.len() as int) =~= name@);
        let text = python_source_text(tree, n);
        let signature = crate::text::copy_range(&text, 0, text.len());
        assert(text@.subrange(0, text@.len() as int) =~= text@);
        assert(python_definition_of(*tree, n) is None);
        assert(python_child_decls(*tree, n) =~= Seq::<usize>::empty());
        let parts = ItemParts {
            kind: AstItemKind::TypeAlias,
            name: Some(crate::text::copy_range(&name, 0, name.len())),
            associated_type: None,
            location: location_for_node(tree, n),
            docs: None,
            inner_docs: None,
            attributes: None,
            source_preamble: None,
            summary: prefixed("type ", &name),
            signature: Some(signature),
            body: Some(text),
        };
        return Some(make_item(parts, Vec::new()));
    }
    None
}

/// A function or class definition, rendered from `render_node` (its decorated form, if any).
fn parse_python_definition(tree: &SyntaxTree, render_node: usize, definition: usize, is_class: bool) -> (r:
    AstItem)
    requires
        tree.wf(),
        tree.valid_node(render_node),
        tree.valid_node(definition),
        render_node <= definition,
        is_class == (tree.kind_of(definition) == "class_definition"@),
    ensures
        r.kind == if is_class {
            AstItemKind::Class
        } else {
            AstItemKind::Function
        },
        r.summary@ == python_definition_summary(*tree, definition),
        ({
            let decls = match tree.field_child(definition, "body"@) {
                Some(b) => python_decls(*tree, b),
                None => Seq::empty(),
            };
            python_items_are(r.children@, *tree, decls) && python_ready_among_siblings(
                r.children@,
                *tree,
                decls,
            )
        }),
        opt_seq(r.name) == Some(field_text_or(*tree, definition, "name"@, "<anonymous>"@)),
        opt_seq(r.docs) == match tree.field_child(definition, "body"@) {
            Some(b) => python_body_docstring(*tree, b),
            None => None,
        },
        opt_seq(r.signature) == Some(python_signature_spec(*tree, render_node, definition)),
        opt_seq(r.body) == Some(python_source_spec(*tree, render_node)),
        r.associated_type is None,
        r.inner_docs is None,
        r.attributes is None,
        r.source_preamble is None,
        node_location(*tree, render_node, r.location),
    decreases tree.nodes@.len() - render_node, 0int,
{
    let name = name_or_anonymous(child_text_by_field(tree, definition, "name"));
    let body = tree.child_by_field(definition, "body");
    let summary = if is_class {
        prefixed("class ", &name)
    } else {
        let header = signature_text(tree, definition);
        if starts_with_str(&header, "async def ") {
            prefixed("async def ", &name)
        } else {
            prefixed("def ", &name)
        }
    };
    let docs = match body {
        Some(b) => docstring_for_body(tree, b),
        None => None,
    };
    let parts = ItemParts {
        kind: if is_class {
            AstItemKind::Class
        } else {
            AstItemKind::Function
        },
        name: Some(name),
        associated_type: None,
        location: location_for_node(tree, render_node),
        docs,
        inner_docs: None,
        attributes: None,
        source_preamble: None,
        summary,
        signature: Some(python_signature_text(tree, render_node, definition)),
        body: Some(python_source_text(tree, render_node)),
    };
    let children = match body {
        Some(b) => {
            let collected = collect_python_supported_items(tree, b);
            let ghost c = collected@;
            let marked = mark_overlapping_siblings(collected);
            proof {
                lemma_overlap_marks_python_items(c, *tree, python_decls(*tree, b));
                assert(marked@ =~= Seq::new(c.len(), |x: int| with_sibling_overlap(c, x)));
            }
            marked
        },
        None => Vec::new(),
    };
    make_item(parts, children)
}

/// The outline of a parsed Python file.
pub fn python_file_ast(tree: &SyntaxTree) -> (r: FileAst)
    requires
        tree.wf(),
    ensures
        r.language == AstLanguage::Python,
        r.has_errors == tree.nodes@[0].has_error,
        r.first_error == crate::outline::first_error_spec(*tree),
        opt_seq(r.root_docs) == python_body_docstring(*tree, 0),
        python_items_are(r.items@, *tree, python_decls(*tree, 0)),
        python_ready_among_siblings(r.items@, *tree, python_decls(*tree, 0)),
{
    let collected = collect_python_supported_items(tree, 0);
    let ghost c = collected@;
    let items = mark_overlapping_siblings(collected);
    proof {
        lemma_overlap_marks_python_items(c, *tree, python_decls(*tree, 0));
        assert(items@ =~= Seq::new(c.len(), |x: int| with_sibling_overlap(c, x)));
    }
    FileAst {
        language: AstLanguage::Python,
        root_docs: opt_string(docstring_for_body(tree, 0)),
        items,
        has_errors: tree.nodes[0].has_error,
        first_error: first_syntax_error(tree),
    }
}

} // verus!
