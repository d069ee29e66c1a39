//! Outlines of JavaScript, TypeScript and TSX source files.
use vstd::prelude::*;

use crate::outline::{
    line_start_of, dedent_spec, span_owns_lines, dedent_source_block, first_syntax_error, is_blank, location_from_span,
    mark_overlapping_sibling_locations, opt_seq, AstItem, AstItemKind, AstLanguage,
    AstLocationRange, FileAst,
};
use crate::outline_common::{
    child_text_by_field, heads, item_head, node_text_spec, signature_spec, opt_chars_view, location_for_node, make_item, name_or_anonymous,
    opt_string, prefixed, signature_text_with_body, source_indent_for_node, source_indent_spec,
    ItemParts,
};
use crate::outline_rust::{line_breaks_from, rust_gap_has_blank_line};
use crate::syntax::SyntaxTree;
use crate::text::{all_white_space, chars_eq_str, chars_of, copy_range, push_all, push_str, trimmed_range};

verus! {

/// Which dialect a file is written in: TypeScript adds type-level items.
#[derive(Debug, Clone, Copy, PartialEq, Eq, Structural)]
pub enum JsFlavor {
    JavaScript,
    TypeScript,
}

#[derive(Debug, Clone, Copy, PartialEq, Eq, Structural)]
enum JsFunctionKind {
    Function,
    Method,
}

// ---------------------------------------------------------------------------------------------
// Nodes
// ---------------------------------------------------------------------------------------------
pub proof fn lemma_node_in_source(tree: &SyntaxTree, n: usize)
    requires
        tree.wf(),
        tree.valid_node(n),
    ensures
        tree.nodes@[n as int].start <= tree.nodes@[n as int].end <= tree.source@.len(),
{
    assert(tree.nodes@[n as int].start <= tree.nodes@[n as int].end);
}

/// The first child of `n`, named or not, from position `k` on that is of kind `kind`.
pub open spec fn child_of_kind_from(tree: SyntaxTree, n: usize, kind: Seq<char>, k: int) -> Option<usize>
    decreases tree.nodes@[n as int].children@.len() - k,
{
    let children = tree.nodes@[n as int].children@;
    if k < 0 || k >= children.len() {
        None
    } else if tree.kind_of(children[k]) == kind {
        Some(children[k])
    } else {
        child_of_kind_from(tree, n, kind, k + 1)
    }
}

/// The first child of `n`, named or not, of kind `kind`.
pub open spec fn child_of_kind(tree: SyntaxTree, n: usize, kind: Seq<char>) -> Option<usize> {
    child_of_kind_from(tree, n, kind, 0)
}

/// The first child of `n`, named or not, of the given kind.
fn direct_child_with_kind(tree: &SyntaxTree, n: usize, kind: &str) -> (r: Option<usize>)
    requires
        tree.wf(),
        tree.valid_node(n),
    ensures
        r matches Some(c) ==> n < c < tree.nodes@.len(),
        r is Some <==> has_child_of_kind(*tree, n, kind@),
        r == child_of_kind(*tree, n, kind@),
{
    let children = tree.children_of(n);
    let mut k: usize = 0;
    while k < children.len()
        invariant
            tree.wf(),
            n < tree.nodes@.len(),
            children@ == tree.nodes@[n as int].children@,
            forall|j: int| 0 <= j < children@.len() ==> n < #[trigger] children@[j] < tree.nodes@.len(),
            forall|j: int| 0 <= j < k ==> tree.kind_of(#[trigger] children@[j]) != kind@,
            k <= children@.len(),
            child_of_kind_from(*tree, n, kind@, k as int) == child_of_kind(*tree, n, kind@),
        decreases children.len() - k,
    {
        if tree.kind_is(children[k], kind) {
            return Some(children[k]);
        }
        k = k + 1;
    }
    None
}

/// Whether some child of `n` is of kind `kind`.
pub open spec fn has_child_of_kind(tree: SyntaxTree, n: usize, kind: Seq<char>) -> bool {
    exists|k: int|
        0 <= k < tree.nodes@[n as int].children@.len() && tree.kind_of(
            #[trigger] tree.nodes@[n as int].children@[k],
        ) == kind
}

/// The first named child of `n`.
pub open spec fn first_named_child_spec(tree: SyntaxTree, n: usize) -> Option<usize> {
    let children = tree.named_children_spec(n);
    if children.len() > 0 {
        Some(children[0])
    } else {
        None
    }
}

/// The first named child of `n`.
fn first_named_child(tree: &SyntaxTree, n: usize) -> (r: Option<usize>)
    requires
        tree.wf(),
        tree.valid_node(n),
    ensures
        r matches Some(c) ==> n < c < tree.nodes@.len(),
        r == first_named_child_spec(*tree, n),
{
    let children = tree.named_children(n);
    if children.len() > 0 {
        Some(children[0])
    } else {
        None
    }
}

/// The child of `p` right after the first occurrence of `n` among its children from position
/// `k` on.
pub open spec fn next_sibling_from(tree: SyntaxTree, p: usize, n: usize, k: int) -> Option<usize>
    decreases tree.nodes@[p as int].children@.len() - k,
{
    let children = tree.nodes@[p as int].children@;
    if k < 0 || k >= children.len() {
        None
    } else if children[k] == n {
        if k + 1 < children.len() {
            Some(children[k + 1])
        } else {
            None
        }
    } else {
        next_sibling_from(tree, p, n, k + 1)
    }
}

/// The sibling, named or not, right after `n` under its parent.
pub open spec fn next_sibling_spec(tree: SyntaxTree, n: usize) -> Option<usize> {
    match tree.nodes@[n as int].parent {
        Some(p) => next_sibling_from(tree, p, n, 0),
        None => None,
    }
}

/// The sibling, named or not, right after `n`.
fn next_sibling(tree: &SyntaxTree, n: usize) -> (r: Option<usize>)
    requires
        tree.wf(),
        tree.valid_node(n),
    ensures
        r matches Some(s) ==> s < tree.nodes@.len(),
        r == next_sibling_spec(*tree, n),
{
    let parent = match tree.nodes[n].parent {
        Some(p) => p,
        None => return None,
    };
    let children = tree.children_of(parent);
    let mut k: usize = 0;
    while k < children.len()
        invariant
            tree.wf(),
            parent < tree.nodes@.len(),
            k <= children@.len(),
            tree.nodes@[n as int].parent == Some(parent),
            children@ == tree.nodes@[parent as int].children@,
            next_sibling_from(*tree, parent, n, k as int) == next_sibling_spec(*tree, n),
            forall|j: int| 0 <= j < children@.len() ==> parent < #[trigger] children@[j] < tree.nodes@.len(),
        decreases children.len() - k,
    {
        if children[k] == n {
            if k + 1 < children.len() {
                return Some(children[k + 1]);
            }
            return None;
        }
        k = k + 1;
    }
    None
}

/// The node that parenthesized expressions around `n` wrap: the first named child of each, in
/// turn, down to one that is not parenthesized (or holds nothing).
pub open spec fn js_unwrapped(tree: SyntaxTree, n: usize) -> usize
    decreases tree.nodes@.len() - n,
{
    if n < tree.nodes@.len() && tree.kind_of(n) == "parenthesized_expression"@ {
        match first_named_child_spec(tree, n) {
            Some(inner) => if n < inner < tree.nodes@.len() {
                js_unwrapped(tree, inner)
            } else {
                n
            },
            None => n,
        }
    } else {
        n
    }
}

/// Steps into parenthesized expressions to the first node they wrap.
fn unwrap_parenthesized(tree: &SyntaxTree, n: usize) -> (r: usize)
    requires
        tree.wf(),
        tree.valid_node(n),
    ensures
        n <= r < tree.nodes@.len(),
        r == js_unwrapped(*tree, n),
{
    let mut node = n;
    while tree.kind_is(node, "parenthesized_expression")
        invariant
            tree.wf(),
            n <= node < tree.nodes@.len(),
            js_unwrapped(*tree, node) == js_unwrapped(*tree, n),
        ensures
            n <= node < tree.nodes@.len(),
            js_unwrapped(*tree, node) == js_unwrapped(*tree, n),
            js_unwrapped(*tree, node) == node,
        decreases tree.nodes@.len() - node,
    {
        match first_named_child(tree, node) {
            Some(inner) => node = inner,
            None => break ,
        }
    }
    node
}

/// Whether node `n` is a function value: an arrow function, a function expression or a
/// generator function.
pub open spec fn is_function_value_spec(tree: SyntaxTree, n: usize) -> bool {
    let kind = tree.kind_of(n);
    kind == "arrow_function"@ || kind == "function_expression"@ || kind == "generator_function"@
}

fn is_function_value(tree: &SyntaxTree, n: usize) -> (r: bool)
    requires
        tree.wf(),
        tree.valid_node(n),
    ensures
        r == is_function_value_spec(*tree, n),
{
    tree.kind_is(n, "arrow_function") || tree.kind_is(n, "function_expression") || tree.kind_is(
        n,
        "generator_function",
    )
}

/// Walking back from `previous` over the decorators and comments before a declaration: the
/// earliest decorator reached, or `owned` when there is none.
pub open spec fn declaration_start_from(tree: SyntaxTree, owned: usize, previous: Option<usize>) -> usize
    decreases
            match previous {
                Some(s) => s as int + 1,
                None => 0,
            },
    when tree.wf()
{
    match previous {
        Some(s) => if s >= tree.nodes@.len() {
            owned
        } else {
            proof {
                tree.lemma_prev_named_sibling(s);
            }
            if tree.kind_of(s) == "decorator"@ {
                declaration_start_from(tree, s, tree.prev_named_sibling_spec(s))
            } else if tree.kind_of(s) == "comment"@ {
                declaration_start_from(tree, owned, tree.prev_named_sibling_spec(s))
            } else {
                owned
            }
        },
        None => owned,
    }
}

/// The node where a declaration's own text starts: its first decorator, or itself.
pub open spec fn declaration_start_spec(tree: SyntaxTree, n: usize) -> usize {
    declaration_start_from(tree, n, tree.prev_named_sibling_spec(n))
}

/// The node where a declaration's own text starts: its decorators, past comments between them.
fn js_declaration_start_node(tree: &SyntaxTree, n: usize) -> (r: usize)
    requires
        tree.wf(),
        tree.valid_node(n),
    ensures
        r < tree.nodes@.len(),
        r == declaration_start_spec(*tree, n),
{
    let mut owned_start = n;
    let mut previous = tree.prev_named_sibling(n);
    loop
        invariant
            tree.wf(),
            owned_start < tree.nodes@.len(),
            previous matches Some(s) ==> s < tree.nodes@.len(),
            declaration_start_from(*tree, owned_start, previous) == declaration_start_spec(*tree, n),
        ensures
            owned_start < tree.nodes@.len(),
            owned_start == declaration_start_spec(*tree, n),
        decreases match previous {
            Some(s) => s + 1,
            None => 0,
        },
    {
        let sibling = match previous {
            Some(s) => s,
            None => break ,
        };
        if tree.kind_is(sibling, "decorator") {
            owned_start = sibling;
        } else if !tree.kind_is(sibling, "comment") {
            break ;
        }
        previous = tree.prev_named_sibling(sibling);
    }
    owned_start
}

/// The `;` right after node `n`, with nothing but white space between them.
pub open spec fn declaration_end_spec(tree: SyntaxTree, n: usize) -> Option<usize> {
    match next_sibling_spec(tree, n) {
        Some(s) => if tree.kind_of(s) == ";"@ && tree.nodes@[n as int].end <= tree.nodes@[s as int].start
            && all_white_space(
            tree.source@.subrange(
                tree.nodes@[n as int].end as int,
                tree.nodes@[s as int].start as int,
            ),
        ) {
            Some(s)
        } else {
            None
        },
        None => None,
    }
}

/// Where a declaration's own text ends: its closing `;`, or itself.
pub open spec fn owned_end_spec(tree: SyntaxTree, n: usize) -> usize {
    match declaration_end_spec(tree, n) {
        Some(e) => e,
        None => n,
    }
}

/// The `;` that closes a declaration right after it, with nothing but white space between.
fn js_declaration_end_node(tree: &SyntaxTree, n: usize) -> (r: Option<usize>)
    requires
        tree.wf(),
        tree.valid_node(n),
    ensures
        r matches Some(s) ==> s < tree.nodes@.len(),
        r == declaration_end_spec(*tree, n),
{
    let next = match next_sibling(tree, n) {
        Some(s) => s,
        None => return None,
    };
    if !tree.kind_is(next, ";") {
        return None;
    }
    let from = tree.nodes[n].end;
    let to = tree.nodes[next].start;
    if from <= to && is_blank(&copy_range(&tree.source, from, to)) {
        Some(next)
    } else {
        None
    }
}

/// The end of a declaration's own text: past its closing `;`.
fn owned_end_node(tree: &SyntaxTree, n: usize) -> (r: usize)
    requires
        tree.wf(),
        tree.valid_node(n),
    ensures
        r < tree.nodes@.len(),
        r == owned_end_spec(*tree, n),
{
    match js_declaration_end_node(tree, n) {
        Some(e) => e,
        None => n,
    }
}

/// The trimmed source between two offsets, when they are in order.
pub fn trimmed_between(tree: &SyntaxTree, start: usize, end: usize) -> (r: Vec<char>)
    requires
        tree.wf(),
        start <= tree.source@.len(),
        end <= tree.source@.len(),
    ensures
        r@ == if start <= end {
            crate::text::trimmed(tree.source@.subrange(start as int, end as int))
        } else {
            Seq::empty()
        },
{
    if start <= end {
        trimmed_range(&tree.source, start, end)
    } else {
        Vec::new()
    }
}

/// The trimmed source between two offsets, nothing when they are out of order.
pub open spec fn trimmed_between_spec(tree: SyntaxTree, start: int, end: int) -> Seq<char> {
    if start <= end {
        crate::text::trimmed(tree.source@.subrange(start, end))
    } else {
        Seq::empty()
    }
}

/// A declaration's own text, from the start of `start` to the end of `end` and its `;`,
/// dedented by the source indentation of `start`.
pub open spec fn js_owned_text_spec(tree: SyntaxTree, start: usize, end: usize) -> Seq<char> {
    dedent_spec(
        trimmed_between_spec(
            tree,
            tree.nodes@[start as int].start as int,
            tree.nodes@[owned_end_spec(tree, end) as int].end as int,
        ),
        source_indent_spec(tree, start),
    )
}

/// A declaration's text up to its body, dedented; its own text when it has no body.
pub open spec fn js_signature_spec(tree: SyntaxTree, start: usize, end: usize, body: Option<usize>) -> Seq<
    char,
> {
    match body {
        Some(b) => dedent_spec(
            trimmed_between_spec(
                tree,
                tree.nodes@[start as int].start as int,
                tree.nodes@[b as int].start as int,
            ),
            source_indent_spec(tree, start),
        ),
        None => js_owned_text_spec(tree, start, end),
    }
}

/// `l` is the location of a declaration from `start` to `end` and its `;`: its lines, and
/// whether it owns them.
pub open spec fn js_location(tree: SyntaxTree, start: usize, end: usize, l: AstLocationRange) -> bool {
    let s = tree.nodes@[start as int];
    let e = tree.nodes@[owned_end_spec(tree, end) as int];
    &&& l.start_line == s.start_row
    &&& (l.end_line == e.end_row + if e.end_column > 0 {
        1int
    } else {
        0int
    } || (e.end_row == usize::MAX && l.end_line == e.end_row))
    &&& l.is_edit_ready == span_owns_lines(
        tree.source@,
        s.start as int,
        e.end as int,
        e.end_column as int,
    )
}

/// A declaration's own text from `start` to the end of `end` (and its `;`), dedented.
fn js_owned_node_text(tree: &SyntaxTree, start: usize, end: usize) -> (r: Vec<char>)
    requires
        tree.wf(),
        tree.valid_node(start),
        tree.valid_node(end),
    ensures
        r@ == js_owned_text_spec(*tree, start, end),
{
    let owned_end = owned_end_node(tree, end);
    proof {
        lemma_node_in_source(tree, start);
        lemma_node_in_source(tree, owned_end);
    }
    let text = trimmed_between(tree, tree.nodes[start].start, tree.nodes[owned_end].end);
    dedent_source_block(&text, &source_indent_for_node(tree, start))
}

/// A declaration's text up to its body, dedented; its whole text when it has no body.
fn js_signature_text_with_body(tree: &SyntaxTree, start: usize, end: usize, body: Option<usize>) -> (r: Vec<char>)
    requires
        tree.wf(),
        tree.valid_node(start),
        tree.valid_node(end),
        body matches Some(b) ==> tree.valid_node(b),
    ensures
        r@ == js_signature_spec(*tree, start, end, body),
{
    match body {
        Some(b) => {
            let text = trimmed_between(tree, tree.nodes[start].start, tree.nodes[b].start);
            dedent_source_block(&text, &source_indent_for_node(tree, start))
        },
        None => js_owned_node_text(tree, start, end),
    }
}

fn location_for_js_node(tree: &SyntaxTree, start: usize, end: usize) -> (l: AstLocationRange)
    requires
        tree.wf(),
        tree.valid_node(start),
        tree.valid_node(end),
    ensures
        js_location(*tree, start, end, l),
{
    let owned_end = owned_end_node(tree, end);
    proof {
        lemma_node_in_source(tree, start);
        lemma_node_in_source(tree, owned_end);
    }
    let s = &tree.nodes[start];
    let e = &tree.nodes[owned_end];
    location_from_span(&tree.source, s.start_row, e.end_row, e.end_column, s.start, e.end)
}

// ---------------------------------------------------------------------------------------------
// Names
// ---------------------------------------------------------------------------------------------
fn is_quote(c: char) -> (r: bool)
    ensures
        r == (c == '\'' || c == '"'),
{
    c == '\'' || c == '"'
}

/// A letter, a digit, `_` or `$`.
pub open spec fn is_identifier_char(c: char) -> bool {
    c == '_' || c == '$' || ('a' <= c && c <= 'z') || ('A' <= c && c <= 'Z') || ('0' <= c && c
        <= '9')
}

/// The text inside the quotes of a quoted name when it is a plain identifier: not empty, not
/// starting with a digit, and made of letters, digits, `_` and `$`.
pub open spec fn string_property_name(text: Seq<char>) -> Option<Seq<char>> {
    if text.len() < 2 || !(text[0] == '\'' || text[0] == '"') || text[text.len() - 1] != text[0] {
        None
    } else {
        let inner = text.subrange(1, text.len() - 1);
        if inner.len() == 0 || ('0' <= inner[0] && inner[0] <= '9') || !(forall|k: int|
            0 <= k < inner.len() ==> is_identifier_char(#[trigger] inner[k])) {
            None
        } else {
            Some(inner)
        }
    }
}

/// The text inside the quotes of a quoted property name that is a plain identifier.
fn js_string_property_name(text: &[char]) -> (r: Option<Vec<char>>)
    ensures
        opt_chars_view(r) == string_property_name(text@),
{
    if text.len() < 2 || !is_quote(text[0]) || text[text.len() - 1] != text[0] {
        return None;
    }
    let inner = copy_range(text, 1, text.len() - 1);
    if inner.len() == 0 || ('0' <= inner[0] && inner[0] <= '9') {
        return None;
    }
    let mut k: usize = 0;
    while k < inner.len()
        invariant
            k <= inner@.len(),
            text@.len() >= 2,
            text@[0] == '\'' || text@[0] == '"',
            text@[text@.len() - 1] == text@[0],
            inner@ == text@.subrange(1, text@.len() - 1),
            inner@.len() > 0,
            !('0' <= inner@[0] && inner@[0] <= '9'),
            forall|j: int| 0 <= j < k ==> is_identifier_char(#[trigger] inner@[j]),
        decreases inner.len() - k,
    {
        let c = inner[k];
        let ok = c == '_' || c == '$' || ('a' <= c && c <= 'z') || ('A' <= c && c <= 'Z') || ('0'
            <= c && c <= '9');
        if !ok {
            assert(!is_identifier_char(inner@[k as int]));
            return None;
        }
        k = k + 1;
    }
    Some(inner)
}

/// The name of a property: a quoted plain identifier without its quotes, or the text.
pub open spec fn property_name_spec(tree: SyntaxTree, n: usize) -> Seq<char> {
    let text = node_text_spec(tree, n);
    if tree.kind_of(n) == "string"@ {
        match string_property_name(text) {
            Some(name) => name,
            None => text,
        }
    } else {
        text
    }
}

fn js_property_name(tree: &SyntaxTree, n: usize) -> (r: Vec<char>)
    requires
        tree.wf(),
        tree.valid_node(n),
    ensures
        r@ == property_name_spec(*tree, n),
{
    let text = tree.trimmed_node_text(n);
    if tree.kind_is(n, "string") {
        match js_string_property_name(&text) {
            Some(name) => name,
            None => text,
        }
    } else {
        text
    }
}

/// The name of a module: a quoted name without its quotes, or the text.
pub open spec fn module_name_spec(tree: SyntaxTree, n: usize) -> Seq<char> {
    let text = node_text_spec(tree, n);
    if tree.kind_of(n) == "string"@ && text.len() >= 2 && (text[0] == '\'' || text[0] == '"')
        && text[text.len() - 1] == text[0] {
        text.subrange(1, text.len() - 1)
    } else {
        text
    }
}

fn js_module_name(tree: &SyntaxTree, n: usize) -> (r: Vec<char>)
    requires
        tree.wf(),
        tree.valid_node(n),
    ensures
        r@ == module_name_spec(*tree, n),
{
    let text = tree.trimmed_node_text(n);
    if tree.kind_is(n, "string") && text.len() >= 2 && is_quote(text[0]) && text[text.len() - 1]
        == text[0] {
        copy_range(&text, 1, text.len() - 1)
    } else {
        text
    }
}

/// The dotted path that an assignment target names: an identifier (or `this`, `super`), a
/// member `object.property`, or a subscript `object.name` for a quoted plain identifier and
/// `object[index]` otherwise; none for anything else.
pub open spec fn member_path_spec(tree: SyntaxTree, n: usize) -> Option<Seq<char>>
    decreases tree.nodes@.len() - n,
    when tree.wf() && tree.valid_node(n)
{
    let kind = tree.kind_of(n);
    if kind == "identifier"@ || kind == "property_identifier"@ || kind
        == "private_property_identifier"@ || kind == "this"@ || kind == "super"@ {
        Some(node_text_spec(tree, n))
    } else if kind == "member_expression"@ || kind == "subscript_expression"@ {
        proof {
            tree.lemma_field_child(n, "object"@);
        }
        match tree.field_child(n, "object"@) {
            Some(object) => match member_path_spec(tree, object) {
                Some(path) => if kind == "member_expression"@ {
                    match tree.field_child(n, "property"@) {
                        Some(p) => Some(path + seq!['.'] + node_text_spec(tree, p)),
                        None => None,
                    }
                } else {
                    match tree.field_child(n, "index"@) {
                        Some(i) => {
                            let index_text = node_text_spec(tree, i);
                            let property = if tree.kind_of(i) == "string"@ {
                                string_property_name(index_text)
                            } else {
                                None
                            };
                            match property {
                                Some(q) => Some(path + seq!['.'] + q),
                                None => Some(path + seq!['['] + index_text + seq![']']),
                            }
                        },
                        None => None,
                    }
                },
                None => None,
            },
            None => None,
        }
    } else {
        None
    }
}

/// The dotted path that an assignment target or member expression names.
fn js_member_path(tree: &SyntaxTree, n: usize) -> (r: Option<Vec<char>>)
    requires
        tree.wf(),
        tree.valid_node(n),
    ensures
        opt_chars_view(r) == member_path_spec(*tree, n),
    decreases tree.nodes@.len() - n,
{
    if tree.kind_is(n, "identifier") || tree.kind_is(n, "property_identifier") || tree.kind_is(
        n,
        "private_property_identifier",
    ) || tree.kind_is(n, "this") || tree.kind_is(n, "super") {
        return Some(tree.trimmed_node_text(n));
    }
    if tree.kind_is(n, "member_expression") {
        let object = match tree.child_by_field(n, "object") {
            Some(o) => o,
            None => return None,
        };
        let mut path = match js_member_path(tree, object) {
            Some(p) => p,
            None => return None,
        };
        let property = match tree.child_by_field(n, "property") {
            Some(p) => p,
            None => return None,
        };
        path.push('.');
        push_all(&mut path, &tree.trimmed_node_text(property));
        return Some(path);
    }
    if tree.kind_is(n, "subscript_expression") {
        let object = match tree.child_by_field(n, "object") {
            Some(o) => o,
            None => return None,
        };
        let mut path = match js_member_path(tree, object) {
            Some(p) => p,
            None => return None,
        };
        let index = match tree.child_by_field(n, "index") {
            Some(i) => i,
            None => return None,
        };
        let index_text = tree.trimmed_node_text(index);
        let property = if tree.kind_is(index, "string") {
            js_string_property_name(&index_text)
        } else {
            None
        };
        match property {
            Some(p) => {
                path.push('.');
                push_all(&mut path, &p);
            },
            None => {
                path.push('[');
                push_all(&mut path, &index_text);
                path.push(']');
            },
        }
        return Some(path);
    }
    None
}

// ---------------------------------------------------------------------------------------------
// Summaries
// ---------------------------------------------------------------------------------------------
/// `class name`, or `abstract class name` for an abstract class.
pub open spec fn class_summary(tree: SyntaxTree, name: Seq<char>, definition: usize) -> Seq<char> {
    if tree.kind_of(definition) == "abstract_class_declaration"@ {
        "abstract class "@ + name
    } else {
        "class "@ + name
    }
}

fn summarize_js_class(tree: &SyntaxTree, name: &[char], definition: usize) -> (r: Vec<char>)
    requires
        tree.wf(),
        tree.valid_node(definition),
    ensures
        r@ == class_summary(*tree, name@, definition),
{
    if tree.kind_is(definition, "abstract_class_declaration") {
        prefixed("abstract class ", name)
    } else {
        prefixed("class ", name)
    }
}

/// The summary of a function (a method when `method`): `static ` when `render` is static,
/// `abstract ` for an abstract method signature, `async ` when the definition is, then
/// `function` or `method`, `*` for a generator, a space and the name.
pub open spec fn function_summary(
    tree: SyntaxTree,
    method: bool,
    name: Seq<char>,
    definition: usize,
    render: usize,
) -> Seq<char> {
    let kind = tree.kind_of(definition);
    let is_generator = kind == "generator_function"@ || kind == "generator_function_declaration"@
        || has_child_of_kind(tree, definition, "*"@);
    (if has_child_of_kind(tree, render, "static"@) {
        "static "@
    } else {
        Seq::empty()
    }) + (if kind == "abstract_method_signature"@ {
        "abstract "@
    } else {
        Seq::empty()
    }) + (if has_child_of_kind(tree, definition, "async"@) {
        "async "@
    } else {
        Seq::empty()
    }) + (if method {
        "method"@
    } else {
        "function"@
    }) + (if is_generator {
        seq!['*']
    } else {
        Seq::empty()
    }) + seq![' '] + name
}

/// `static`, `abstract`, `async`, then `function`/`method` (with `*` for a generator), then the
/// name.
fn summarize_js_function(tree: &SyntaxTree, kind: JsFunctionKind, name: &[char], definition: usize, render: usize) -> (r: Vec<char>)
    requires
        tree.wf(),
        tree.valid_node(definition),
        tree.valid_node(render),
    ensures
        r@ == function_summary(*tree, kind == JsFunctionKind::Method, name@, definition, render),
{
    let is_async = direct_child_with_kind(tree, definition, "async").is_some();
    let is_abstract = tree.kind_is(definition, "abstract_method_signature");
    let is_generator = tree.kind_is(definition, "generator_function") || tree.kind_is(
        definition,
        "generator_function_declaration",
    ) || direct_child_with_kind(tree, definition, "*").is_some();
    let is_static = direct_child_with_kind(tree, render, "static").is_some();
    let mut out: Vec<char> = Vec::new();
    let ghost e = Seq::<char>::empty();
    if is_static {
        push_str(&mut out, "static ");
    }
    assert(out@ =~= if is_static { "static "@ } else { e });
    let ghost a = out@;
    if is_abstract {
        push_str(&mut out, "abstract ");
    }
    assert(out@ =~= a + if is_abstract { "abstract "@ } else { e });
    let ghost b = out@;
    if is_async {
        push_str(&mut out, "async ");
    }
    assert(out@ =~= b + if is_async { "async "@ } else { e });
    let ghost c = out@;
    match kind {
        JsFunctionKind::Function => push_str(&mut out, "function"),
        JsFunctionKind::Method => push_str(&mut out, "method"),
    }
    let ghost d = out@;
    if is_generator {
        out.push('*');
    }
    assert(out@ =~= d + if is_generator { seq!['*'] } else { e });
    out.push(' ');
    push_all(&mut out, name);
    out
}

/// `const enum` for a `const` enum, else `enum`.
pub open spec fn enum_keyword_spec(tree: SyntaxTree, definition: usize) -> Seq<char> {
    if has_child_of_kind(tree, definition, "const"@) {
        "const enum"@
    } else {
        "enum"@
    }
}

fn js_enum_keyword(tree: &SyntaxTree, definition: usize) -> (r: &'static str)
    requires
        tree.wf(),
        tree.valid_node(definition),
    ensures
        r@ == enum_keyword_spec(*tree, definition),
{
    if direct_child_with_kind(tree, definition, "const").is_some() {
        "const enum"
    } else {
        "enum"
    }
}

/// The text of the first `const`, else `let`, else `var` child of a declaration; `const` when
/// it has none.
pub open spec fn declaration_keyword_spec(tree: SyntaxTree, declaration: usize) -> Seq<char> {
    match child_of_kind(tree, declaration, "const"@) {
        Some(k) => node_text_spec(tree, k),
        None => match child_of_kind(tree, declaration, "let"@) {
            Some(k) => node_text_spec(tree, k),
            None => match child_of_kind(tree, declaration, "var"@) {
                Some(k) => node_text_spec(tree, k),
                None => "const"@,
            },
        },
    }
}

/// The `const`, `let` or `var` keyword of a declaration (`const` when none is found).
fn declaration_keyword(tree: &SyntaxTree, declaration: usize) -> (r: Vec<char>)
    requires
        tree.wf(),
        tree.valid_node(declaration),
    ensures
        r@ == declaration_keyword_spec(*tree, declaration),
{
    match direct_child_with_kind(tree, declaration, "const") {
        Some(k) => return tree.trimmed_node_text(k),
        None => {},
    }
    match direct_child_with_kind(tree, declaration, "let") {
        Some(k) => return tree.trimmed_node_text(k),
        None => {},
    }
    match direct_child_with_kind(tree, declaration, "var") {
        Some(k) => return tree.trimmed_node_text(k),
        None => {},
    }
    chars_of("const")
}

/// `keyword name`.
fn keyword_name(keyword: &[char], name: &[char]) -> (r: Vec<char>)
    ensures
        r@ == keyword@ + seq![' '] + name@,
{
    let mut out: Vec<char> = Vec::new();
    push_all(&mut out, keyword);
    out.push(' ');
    push_all(&mut out, name);
    proof {
        assert(out@ =~= keyword@ + seq![' '] + name@);
    }
    out
}

// ---------------------------------------------------------------------------------------------
// Comments
// ---------------------------------------------------------------------------------------------
/// Every range lies in order within a text of `len` characters.
pub open spec fn ranges_within(rs: Seq<(usize, usize)>, len: int) -> bool {
    forall|k: int| 0 <= k < rs.len() ==> #[trigger] rs[k].0 <= rs[k].1 && rs[k].1 <= len
}

/// The comments of a file, and the comments that document the file itself.
pub struct JsDocs {
    comments: Vec<(usize, usize)>,
    root_comments: Vec<(usize, usize)>,
}

impl JsDocs {
    pub closed spec fn wf(&self, tree: &SyntaxTree) -> bool {
        &&& ranges_within(self.comments@, tree.source@.len() as int)
        &&& ranges_within(self.root_comments@, tree.source@.len() as int)
    }
}

fn gap_has_blank_line(tree: &SyntaxTree, from: usize, to: usize) -> (r: bool)
    requires
        tree.wf(),
        from <= to <= tree.source@.len(),
    ensures
        r == (line_breaks_from(tree.source@.subrange(from as int, to as int), 0) >= 2),
{
    rust_gap_has_blank_line(&copy_range(&tree.source, from, to))
}

/// The first position from `k` on among the nodes `cs` whose kind is not `kind`.
pub open spec fn skip_kind(tree: SyntaxTree, cs: Seq<usize>, k: int, kind: Seq<char>) -> int
    decreases cs.len() - k,
{
    if k < 0 || k >= cs.len() || tree.kind_of(cs[k]) != kind {
        k
    } else {
        skip_kind(tree, cs, k + 1, kind)
    }
}

/// The ranges of the comments among `cs` from position `k` on, up to the first node that is
/// not a comment.
pub open spec fn comment_run(tree: SyntaxTree, cs: Seq<usize>, k: int) -> Seq<(usize, usize)>
    decreases cs.len() - k,
{
    if k < 0 || k >= cs.len() || tree.kind_of(cs[k]) != "comment"@ {
        Seq::empty()
    } else {
        seq![(tree.nodes@[cs[k] as int].start, tree.nodes@[cs[k] as int].end)] + comment_run(
            tree,
            cs,
            k + 1,
        )
    }
}

/// The first node among `cs` from position `k` on that is neither a `#!` line nor a comment.
pub open spec fn first_syntax_node(tree: SyntaxTree, cs: Seq<usize>, k: int) -> Option<usize>
    decreases cs.len() - k,
{
    if k < 0 || k >= cs.len() {
        None
    } else if tree.kind_of(cs[k]) != "hash_bang_line"@ && tree.kind_of(cs[k]) != "comment"@ {
        Some(cs[k])
    } else {
        first_syntax_node(tree, cs, k + 1)
    }
}

/// The start of the group of comments that ends with `ranges[i]`: the comments back to the
/// first blank line between two of them.
pub open spec fn comment_group_start(tree: SyntaxTree, ranges: Seq<(usize, usize)>, i: int) -> int
    decreases i,
{
    if i <= 0 {
        0
    } else if ranges[i - 1].1 <= ranges[i].0 && line_breaks_from(
        tree.source@.subrange(ranges[i - 1].1 as int, ranges[i].0 as int),
        0,
    ) >= 2 {
        i
    } else {
        comment_group_start(tree, ranges, i - 1)
    }
}

/// The leading comments of a file (after `#!` lines) that document the file: all of them when
/// nothing follows or a blank line separates them from what follows, and otherwise those before
/// the last group, which documents the first item.
pub open spec fn root_comment_ranges_spec(tree: SyntaxTree) -> Seq<(usize, usize)> {
    let cs = tree.named_children_spec(0);
    let leading = comment_run(tree, cs, skip_kind(tree, cs, 0, "hash_bang_line"@));
    if leading.len() == 0 {
        leading
    } else {
        match first_syntax_node(tree, cs, 0) {
            Some(next) => {
                let next_start = tree.nodes@[next as int].start;
                let last = leading.last();
                if last.1 <= next_start && line_breaks_from(
                    tree.source@.subrange(last.1 as int, next_start as int),
                    0,
                ) >= 2 {
                    leading
                } else {
                    leading.subrange(0, comment_group_start(tree, leading, leading.len() - 1))
                }
            },
            None => leading,
        }
    }
}

/// The leading comments of a file, after a `#!` line, that do not belong to its first item:
/// a group of comments directly above the first item (no blank line between) documents that
/// item instead.
fn js_root_comment_ranges(tree: &SyntaxTree) -> (r: Vec<(usize, usize)>)
    requires
        tree.wf(),
    ensures
        ranges_within(r@, tree.source@.len() as int),
        r@ == root_comment_ranges_spec(*tree),
{
    let children = tree.named_children(0);
    let mut leading: Vec<(usize, usize)> = Vec::new();
    let mut k: usize = 0;
    while k < children.len() && tree.kind_is(children[k], "hash_bang_line")
        invariant
            tree.wf(),
            k <= children@.len(),
            children@ == tree.named_children_spec(0),
            skip_kind(*tree, children@, k as int, "hash_bang_line"@) == skip_kind(
                *tree,
                children@,
                0,
                "hash_bang_line"@,
            ),
            forall|j: int| 0 <= j < children@.len() ==> 0 < #[trigger] children@[j] < tree.nodes@.len(),
        decreases children.len() - k,
    {
        k = k + 1;
    }
    let ghost k0 = k as int;
    assert(k0 == skip_kind(*tree, children@, 0, "hash_bang_line"@));
    while k < children.len() && tree.kind_is(children[k], "comment")
        invariant
            tree.wf(),
            k0 <= k <= children@.len(),
            children@ == tree.named_children_spec(0),
            forall|j: int| 0 <= j < children@.len() ==> 0 < #[trigger] children@[j] < tree.nodes@.len(),
            ranges_within(leading@, tree.source@.len() as int),
            leading@ + comment_run(*tree, children@, k as int) == comment_run(*tree, children@, k0),
        decreases children.len() - k,
    {
        let c = children[k];
        proof {
            lemma_node_in_source(tree, c);
        }
        let ghost before = leading@;
        leading.push((tree.nodes[c].start, tree.nodes[c].end));
        proof {
            assert forall|j: int| 0 <= j < leading@.len() implies #[trigger] leading@[j].0
                <= leading@[j].1 && leading@[j].1 <= tree.source@.len() by {
                if j < before.len() {
                    assert(leading@[j] == before[j]);
                }
            }
            assert(leading@ + comment_run(*tree, children@, k + 1) =~= before + comment_run(
                *tree,
                children@,
                k as int,
            ));
        }
        k = k + 1;
    }
    assert(leading@ =~= comment_run(*tree, children@, k0));
    if leading.len() == 0 {
        return leading;
    }
    let mut next_syntax: Option<usize> = None;
    let mut j: usize = 0;
    while j < children.len()
        invariant_except_break
            next_syntax is None,
        invariant
            tree.wf(),
            j <= children@.len(),
            children@ == tree.named_children_spec(0),
            forall|i: int| 0 <= i < children@.len() ==> 0 < #[trigger] children@[i] < tree.nodes@.len(),
            ranges_within(leading@, tree.source@.len() as int),
            first_syntax_node(*tree, children@, j as int) == first_syntax_node(*tree, children@, 0),
        ensures
            next_syntax == first_syntax_node(*tree, children@, 0),
            next_syntax matches Some(s) ==> s < tree.nodes@.len(),
        decreases children.len() - j,
    {
        if !tree.kind_is(children[j], "hash_bang_line") && !tree.kind_is(children[j], "comment") {
            next_syntax = Some(children[j]);
            break ;
        }
        j = j + 1;
    }
    let next = match next_syntax {
        Some(s) => s,
        None => return leading,
    };
    let last = leading[leading.len() - 1];
    proof {
        lemma_node_in_source(tree, next);
    }
    let next_start = tree.nodes[next].start;
    let separated = if last.1 <= next_start {
        gap_has_blank_line(tree, last.1, next_start)
    } else {
        false
    };
    if separated {
        return leading;
    }
    let mut owned_group_start = leading.len() - 1;
    while owned_group_start > 0
        invariant
            tree.wf(),
            owned_group_start < leading@.len(),
            ranges_within(leading@, tree.source@.len() as int),
            comment_group_start(*tree, leading@, owned_group_start as int) == comment_group_start(
                *tree,
                leading@,
                leading@.len() - 1,
            ),
        ensures
            owned_group_start == comment_group_start(*tree, leading@, leading@.len() - 1),
            owned_group_start < leading@.len(),
        decreases owned_group_start,
    {
        let previous = leading[owned_group_start - 1];
        let current = leading[owned_group_start];
        if previous.1 <= current.0 && gap_has_blank_line(tree, previous.1, current.0) {
            break ;
        }
        owned_group_start = owned_group_start - 1;
    }
    let mut out: Vec<(usize, usize)> = Vec::new();
    let mut i: usize = 0;
    while i < owned_group_start
        invariant
            owned_group_start < leading@.len(),
            i <= owned_group_start,
            ranges_within(leading@, tree.source@.len() as int),
            ranges_within(out@, tree.source@.len() as int),
            out@ == leading@.subrange(0, i as int),
        decreases owned_group_start - i,
    {
        out.push(leading[i]);
        i = i + 1;
        assert(out@ =~= leading@.subrange(0, i as int));
    }
    out
}

/// The character ranges of the named comment nodes among the first `n` nodes, in node order.
pub open spec fn comment_ranges_upto(tree: SyntaxTree, n: int) -> Seq<(usize, usize)>
    decreases n,
{
    if n <= 0 {
        Seq::empty()
    } else {
        let before = comment_ranges_upto(tree, n - 1);
        let node = tree.nodes@[n - 1];
        if node.is_named && node.kind@ == "comment"@ {
            before.push((node.start, node.end))
        } else {
            before
        }
    }
}

/// The comment nodes of a file, in source order.
pub fn collect_comment_ranges(tree: &SyntaxTree) -> (r: Vec<(usize, usize)>)
    requires
        tree.wf(),
    ensures
        ranges_within(r@, tree.source@.len() as int),
        r@ == comment_ranges_upto(*tree, tree.nodes@.len() as int),
{
    let mut comments: Vec<(usize, usize)> = Vec::new();
    let mut n: usize = 0;
    while n < tree.nodes.len()
        invariant
            tree.wf(),
            n <= tree.nodes@.len(),
            ranges_within(comments@, tree.source@.len() as int),
            comments@ == comment_ranges_upto(*tree, n as int),
        decreases tree.nodes.len() - n,
    {
        proof {
            lemma_node_in_source(tree, n);
        }
        if tree.nodes[n].is_named && tree.kind_is(n, "comment") {
            let ghost before = comments@;
            comments.push((tree.nodes[n].start, tree.nodes[n].end));
            proof {
                assert forall|k: int| 0 <= k < comments@.len() implies #[trigger] comments@[k].0
                    <= comments@[k].1 && comments@[k].1 <= tree.source@.len() by {
                    if k < before.len() {
                        assert(comments@[k] == before[k]);
                    }
                }
            }
        }
        n = n + 1;
    }
    comments
}

fn js_docs(tree: &SyntaxTree) -> (d: JsDocs)
    requires
        tree.wf(),
    ensures
        d.wf(tree),
        d.comments@ == comment_ranges_upto(*tree, tree.nodes@.len() as int),
        d.root_comments@ == root_comment_ranges_spec(*tree),
{
    JsDocs { comments: collect_comment_ranges(tree), root_comments: js_root_comment_ranges(tree) }
}

/// The position of the last of `comments[..upper]` that ends at or before `anchor`.
pub open spec fn last_comment_before(comments: Seq<(usize, usize)>, upper: int, anchor: int) -> Option<int>
    decreases upper,
{
    if upper <= 0 {
        None
    } else if comments[upper - 1].1 <= anchor {
        Some(upper - 1)
    } else {
        last_comment_before(comments, upper - 1, anchor)
    }
}

/// Walking up from `anchor` over `comments[..upper]`: the span of the comments taken so far
/// (`span`), extended by each comment that ends before the anchor with only white space and no
/// blank line between, and that starts on a line of its own.
pub open spec fn comment_walk(
    tree: SyntaxTree,
    comments: Seq<(usize, usize)>,
    upper: int,
    anchor: int,
    span: Option<(usize, usize)>,
) -> Option<(usize, usize)>
    decreases upper,
{
    match last_comment_before(comments, upper, anchor) {
        Some(i) => if i < 0 || i >= upper {
            span
        } else {
            let c = comments[i];
            let gap = tree.source@.subrange(c.1 as int, anchor);
            let source = tree.source@;
            if !all_white_space(gap) || line_breaks_from(gap, 0) >= 2 || !all_white_space(
                source.subrange(line_start_of(source, c.0 as int), c.0 as int),
            ) {
                span
            } else {
                comment_walk(
                    tree,
                    comments,
                    i,
                    c.0 as int,
                    Some(
                        (
                            c.0,
                            match span {
                                Some(sp) => sp.1,
                                None => c.1,
                            },
                        ),
                    ),
                )
            }
        },
        None => span,
    }
}

/// The span of the comments directly above node `n`.
pub open spec fn leading_comment_span_spec(tree: SyntaxTree, comments: Seq<(usize, usize)>, n: usize) -> Option<
    (usize, usize),
> {
    comment_walk(tree, comments, comments.len() as int, tree.nodes@[n as int].start as int, None)
}

proof fn lemma_last_comment_before(comments: Seq<(usize, usize)>, upper: int, anchor: int)
    requires
        upper <= comments.len(),
    ensures
        last_comment_before(comments, upper, anchor) matches Some(i) ==> 0 <= i < upper
            && comments[i].1 <= anchor,
    decreases upper,
{
    if upper > 0 && comments[upper - 1].1 > anchor {
        lemma_last_comment_before(comments, upper - 1, anchor);
    }
}

/// The span of the comments directly above node `n`: each on lines of its own, with nothing
/// but line breaks (and no blank line) between them and the node.
pub(crate) fn leading_comment_span(tree: &SyntaxTree, comments: &Vec<(usize, usize)>, n: usize) -> (r: Option<
    (usize, usize),
>)
    requires
        tree.wf(),
        tree.valid_node(n),
        ranges_within(comments@, tree.source@.len() as int),
    ensures
        r matches Some((a, b)) ==> a <= b <= tree.source@.len(),
        r == leading_comment_span_spec(*tree, comments@, n),
{
    let mut anchor = tree.nodes[n].start;
    let mut any = false;
    let mut span_start: usize = 0;
    let mut span_end: usize = 0;
    let mut upper = comments.len();
    let ghost full = leading_comment_span_spec(*tree, comments@, n);
    proof {
        lemma_node_in_source(tree, n);
    }
    loop
        invariant
            tree.wf(),
            ranges_within(comments@, tree.source@.len() as int),
            upper <= comments@.len(),
            anchor <= tree.source@.len(),
            any ==> span_start <= span_end <= tree.source@.len() && anchor == span_start,
            full == comment_walk(
                *tree,
                comments@,
                upper as int,
                anchor as int,
                if any {
                    Some((span_start, span_end))
                } else {
                    None
                },
            ),
        ensures
            full == if any {
                Some((span_start, span_end))
            } else {
                None
            },
            any ==> span_start <= span_end <= tree.source@.len(),
        decreases upper,
    {
        let ghost span = if any {
            Some((span_start, span_end))
        } else {
            None
        };
        proof {
            lemma_last_comment_before(comments@, upper as int, anchor as int);
        }
        let mut k = upper;
        let mut found: Option<usize> = None;
        while k > 0
            invariant_except_break
                found is None,
            invariant
                k <= upper <= comments@.len(),
                last_comment_before(comments@, k as int, anchor as int) == last_comment_before(
                    comments@,
                    upper as int,
                    anchor as int,
                ),
            ensures
                found matches Some(i) ==> i < upper,
                match found {
                    Some(i) => last_comment_before(comments@, upper as int, anchor as int) == Some(
                        i as int,
                    ),
                    None => last_comment_before(comments@, upper as int, anchor as int) is None,
                },
            decreases k,
        {
            if comments[k - 1].1 <= anchor {
                found = Some(k - 1);
                break ;
            }
            k = k - 1;
        }
        let i = match found {
            Some(i) => i,
            None => break ,
        };
        let comment = comments[i];
        assert(comments@[i as int].0 <= comments@[i as int].1);
        if !(comment.1 <= anchor) {
            break ;
        }
        let gap = copy_range(&tree.source, comment.1, anchor);
        if !is_blank(&gap) || rust_gap_has_blank_line(&gap) {
            break ;
        }
        let mut line_start = comment.0;
        let ghost src = tree.source@;
        while line_start > 0 && tree.source[line_start - 1] != '\n'
            invariant
                line_start <= comment.0 <= tree.source@.len(),
                src == tree.source@,
                line_start_of(src, comment.0 as int) == line_start_of(src, line_start as int),
            decreases line_start,
        {
            line_start = line_start - 1;
        }
        if !is_blank(&copy_range(&tree.source, line_start, comment.0)) {
            break ;
        }
        if !any {
            span_end = comment.1;
            any = true;
        }
        span_start = comment.0;
        anchor = comment.0;
        upper = i;
    }
    if any {
        Some((span_start, span_end))
    } else {
        None
    }
}

/// The text of the comments directly above node `n`.
pub open spec fn leading_docs_spec(tree: SyntaxTree, comments: Seq<(usize, usize)>, n: usize) -> Option<
    Seq<char>,
> {
    match leading_comment_span_spec(tree, comments, n) {
        Some(sp) => Some(trimmed_between_spec(tree, sp.0 as int, sp.1 as int)),
        None => None,
    }
}

/// The text of the comments directly above node `n`.
fn leading_item_docs(tree: &SyntaxTree, docs: &JsDocs, n: usize) -> (r: Option<Vec<char>>)
    requires
        tree.wf(),
        tree.valid_node(n),
        docs.wf(tree),
    ensures
        opt_chars_view(r) == leading_docs_spec(*tree, docs.comments@, n),
{
    match leading_comment_span(tree, &docs.comments, n) {
        Some((a, b)) => Some(trimmed_between(tree, a, b)),
        None => None,
    }
}

/// The text that the comments `ranges` of a file span, from the first to the end of the last.
pub open spec fn root_docs_spec(tree: SyntaxTree, ranges: Seq<(usize, usize)>) -> Option<Seq<char>> {
    if ranges.len() == 0 {
        None
    } else {
        Some(trimmed_between_spec(tree, ranges[0].0 as int, ranges.last().1 as int))
    }
}

fn root_module_docs(tree: &SyntaxTree, docs: &JsDocs) -> (r: Option<Vec<char>>)
    requires
        tree.wf(),
        docs.wf(tree),
    ensures
        opt_chars_view(r) == root_docs_spec(*tree, docs.root_comments@),
{
    let n = docs.root_comments.len();
    if n == 0 {
        return None;
    }
    assert(docs.root_comments@[0].0 <= docs.root_comments@[0].1);
    assert(docs.root_comments@[n - 1].0 <= docs.root_comments@[n - 1].1);
    assert(docs.root_comments@[n - 1].1 <= tree.source@.len());
    Some(trimmed_between(tree, docs.root_comments[0].0, docs.root_comments[n - 1].1))
}

// ---------------------------------------------------------------------------------------------
// Items
// ---------------------------------------------------------------------------------------------
fn parts(
    kind: AstItemKind,
    name: Vec<char>,
    location: AstLocationRange,
    docs: Option<Vec<char>>,
    summary: Vec<char>,
    signature: Vec<char>,
    body: Option<Vec<char>>,
) -> (p: ItemParts)
    ensures
        p.kind == kind,
        p.name == Some(name),
        p.location == location,
        p.summary == summary,
{
    ItemParts {
        kind,
        name: Some(name),
        associated_type: None,
        location,
        docs,
        inner_docs: None,
        attributes: None,
        source_preamble: None,
        summary,
        signature: Some(signature),
        body,
    }
}

/// The items of the children of `n`.
fn collect_js_like_supported_items(tree: &SyntaxTree, docs: &JsDocs, n: usize, flavor: JsFlavor) -> (r: Vec<AstItem>)
    requires
        tree.wf(),
        tree.valid_node(n),
        docs.wf(tree),
    ensures
        heads(r@) == js_body_heads(*tree, n, flavor == JsFlavor::TypeScript),
    decreases tree.nodes@.len() - n, 0int,
{
    let children = tree.named_children(n);
    let ghost ts = flavor == JsFlavor::TypeScript;
    let mut items: Vec<AstItem> = Vec::new();
    let mut k: usize = 0;
    assert(heads(items@) =~= js_collected_heads(*tree, children@.subrange(0, 0), ts));
    while k < children.len()
        invariant
            tree.wf(),
            docs.wf(tree),
            n < tree.nodes@.len(),
            k <= children@.len(),
            children@ == tree.named_children_spec(n),
            ts == (flavor == JsFlavor::TypeScript),
            forall|j: int| 0 <= j < children@.len() ==> n < #[trigger] children@[j] < tree.nodes@.len(),
            heads(items@) == js_collected_heads(*tree, children@.subrange(0, k as int), ts),
        decreases children.len() - k,
    {
        let child = children[k];
        let ghost before = items@;
        proof {
            assert(children@.subrange(0, k + 1).drop_last() =~= children@.subrange(0, k as int));
        }
        let mut found = parse_js_like_items(tree, docs, child, flavor);
        let ghost found_view = found@;
        items.append(&mut found);
        assert(heads(items@) =~= heads(before) + heads(found_view));
        if flavor == JsFlavor::TypeScript {
            let ghost middle = items@;
            let mut properties = parse_ts_constructor_parameter_properties(tree, docs, child);
            let ghost properties_view = properties@;
            items.append(&mut properties);
            assert(heads(items@) =~= heads(middle) + heads(properties_view));
        } else {
            assert(heads(items@) =~= heads(items@) + Seq::empty());
        }
        k = k + 1;
    }
    assert(children@.subrange(0, children@.len() as int) =~= children@);
    items
}

/// The heads of the items of statements `cs`, in order; for TypeScript each constructor is
/// followed by the properties that its parameters declare.
pub open spec fn js_collected_heads(tree: SyntaxTree, cs: Seq<usize>, ts: bool) -> Seq<
    (AstItemKind, Option<Seq<char>>, Seq<char>),
>
    decreases cs.len(),
{
    if cs.len() == 0 {
        Seq::empty()
    } else {
        js_collected_heads(tree, cs.drop_last(), ts) + js_statement_heads(tree, cs.last(), ts) + (
        if ts {
            ts_parameter_property_heads(tree, cs.last())
        } else {
            Seq::empty()
        })
    }
}

/// The heads of the items of the statements (or members) of `n`.
pub open spec fn js_body_heads(tree: SyntaxTree, n: usize, ts: bool) -> Seq<
    (AstItemKind, Option<Seq<char>>, Seq<char>),
> {
    js_collected_heads(tree, tree.named_children_spec(n), ts)
}

/// The name of an item: the name given, or else the declaration's own name.
pub open spec fn js_item_name(tree: SyntaxTree, definition: usize, name_override: Option<Vec<char>>) -> Seq<
    char,
> {
    match name_override {
        Some(o) => o@,
        None => js_name_text(tree, definition),
    }
}

/// The name of a module: its `name` without quotes, or `<anonymous>`.
pub open spec fn module_item_name(tree: SyntaxTree, definition: usize) -> Seq<char> {
    match tree.field_child(definition, "name"@) {
        Some(n) => module_name_spec(tree, n),
        None => "<anonymous>"@,
    }
}

/// `namespace` for an internal module, else `module`.
pub open spec fn module_keyword(tree: SyntaxTree, definition: usize) -> Seq<char> {
    if tree.kind_of(definition) == "internal_module"@ {
        "namespace"@
    } else {
        "module"@
    }
}

/// The name of a TypeScript field: its `property`, else its `name`, as a property name, or
/// `<anonymous>`.
pub open spec fn ts_field_name(tree: SyntaxTree, n: usize) -> Seq<char> {
    match tree.field_child(n, "property"@) {
        Some(p) => property_name_spec(tree, p),
        None => match tree.field_child(n, "name"@) {
            Some(p) => property_name_spec(tree, p),
            None => "<anonymous>"@,
        },
    }
}

/// The kind, name and summary of the one item that a statement or class member declares by its
/// kind alone (`ts` for TypeScript); none for the other kinds.
pub open spec fn js_statement_head(tree: SyntaxTree, n: usize, ts: bool) -> Option<
    (AstItemKind, Option<Seq<char>>, Seq<char>),
> {
    let kind = tree.kind_of(n);
    let name = js_name_text(tree, n);
    if kind == "class_declaration"@ || kind == "abstract_class_declaration"@ {
        Some((AstItemKind::Class, Some(name), class_summary(tree, name, n)))
    } else if kind == "function_declaration"@ || kind == "generator_function_declaration"@ || kind
        == "function_signature"@ {
        Some((AstItemKind::Function, Some(name), function_summary(tree, false, name, n, n)))
    } else if kind == "method_definition"@ || kind == "method_signature"@ || kind
        == "abstract_method_signature"@ {
        Some((AstItemKind::Function, Some(name), function_summary(tree, true, name, n, n)))
    } else if kind == "field_definition"@ || kind == "public_field_definition"@ {
        None
    } else if ts && kind == "property_signature"@ {
        Some(
            (
                AstItemKind::Field,
                Some(ts_field_name(tree, n)),
                (if has_child_of_kind(tree, n, "accessor"@) {
                    "accessor"@
                } else {
                    "property"@
                }) + seq![' '] + ts_field_name(tree, n),
            ),
        )
    } else if ts && kind == "call_signature"@ {
        Some((AstItemKind::Function, Some("call"@), "call signature"@))
    } else if ts && kind == "construct_signature"@ {
        Some((AstItemKind::Function, Some("new"@), "construct signature"@))
    } else if ts && kind == "index_signature"@ {
        Some((AstItemKind::Function, Some("index"@), "index signature"@))
    } else if kind == "lexical_declaration"@ || kind == "variable_declaration"@ || kind
        == "export_statement"@ || kind == "expression_statement"@ {
        None
    } else {
        js_type_level_head(tree, n, n, ts)
    }
}

/// The kind, name and summary of a TypeScript interface, enum, type alias or module `d`
/// (rendered from `render`); none for other kinds.
pub open spec fn js_type_level_head(tree: SyntaxTree, render: usize, d: usize, ts: bool) -> Option<
    (AstItemKind, Option<Seq<char>>, Seq<char>),
> {
    let kind = tree.kind_of(d);
    let name = js_name_text(tree, d);
    if ts && kind == "interface_declaration"@ {
        Some((AstItemKind::Interface, Some(name), "interface "@ + name))
    } else if ts && kind == "enum_declaration"@ {
        Some((AstItemKind::Enum, Some(name), enum_keyword_spec(tree, d) + seq![' '] + name))
    } else if ts && kind == "type_alias_declaration"@ {
        Some((AstItemKind::TypeAlias, Some(name), "type"@ + seq![' '] + name))
    } else if ts && (kind == "module"@ || kind == "internal_module"@) {
        Some(
            (
                AstItemKind::Module,
                Some(module_item_name(tree, d)),
                module_keyword(tree, d) + seq![' '] + module_item_name(tree, d),
            ),
        )
    } else {
        None
    }
}

/// The kind, name and summary of the one item that an exported or ambient declaration `d`
/// (rendered from `render`) declares by its kind alone; none for the other kinds.
pub open spec fn js_declaration_head(tree: SyntaxTree, render: usize, d: usize, ts: bool) -> Option<
    (AstItemKind, Option<Seq<char>>, Seq<char>),
> {
    let kind = tree.kind_of(d);
    let name = js_name_text(tree, d);
    if kind == "class_declaration"@ || kind == "abstract_class_declaration"@ {
        Some((AstItemKind::Class, Some(name), class_summary(tree, name, d)))
    } else if kind == "function_declaration"@ || kind == "generator_function_declaration"@ || kind
        == "function_signature"@ {
        Some((AstItemKind::Function, Some(name), function_summary(tree, false, name, d, render)))
    } else if kind == "lexical_declaration"@ || kind == "variable_declaration"@ {
        None
    } else {
        js_type_level_head(tree, render, d, ts)
    }
}

/// The kind, name and summary of the item that an assignment `value` (rendered from `render`)
/// declares: a function, class or object assigned to a target with a dotted path, named by
/// that path.
pub open spec fn js_assignment_head(tree: SyntaxTree, render: usize, value: usize) -> Option<
    (AstItemKind, Option<Seq<char>>, Seq<char>),
> {
    if tree.kind_of(value) != "assignment_expression"@ {
        None
    } else {
        match tree.field_child(value, "left"@) {
            Some(left) => match member_path_spec(tree, left) {
                Some(name) => match tree.field_child(value, "right"@) {
                    Some(right) => {
                        let d = js_unwrapped(tree, right);
                        if is_function_value_spec(tree, d) {
                            Some(
                                (
                                    AstItemKind::Function,
                                    Some(name),
                                    function_summary(tree, false, name, d, render),
                                ),
                            )
                        } else if tree.kind_of(d) == "class"@ {
                            Some((AstItemKind::Class, Some(name), class_summary(tree, name, d)))
                        } else if tree.kind_of(d) == "object"@ {
                            Some((AstItemKind::Module, Some(name), "object "@ + name))
                        } else {
                            None
                        }
                    },
                    None => None,
                },
                None => None,
            },
            None => None,
        }
    }
}

/// The kinds, names and summaries of the items of an expression statement: a TypeScript
/// namespace, or what an assignment declares.
pub open spec fn js_expression_statement_heads(tree: SyntaxTree, n: usize, ts: bool) -> Seq<
    (AstItemKind, Option<Seq<char>>, Seq<char>),
> {
    match first_named_child_spec(tree, n) {
        Some(first) => {
            let value = js_unwrapped(tree, first);
            if ts && tree.kind_of(value) == "internal_module"@ {
                seq![
                    (
                        AstItemKind::Module,
                        Some(module_item_name(tree, value)),
                        module_keyword(tree, value) + seq![' '] + module_item_name(tree, value),
                    ),
                ]
            } else {
                match js_assignment_head(tree, n, value) {
                    Some(h) => seq![h],
                    None => Seq::empty(),
                }
            }
        },
        None => Seq::empty(),
    }
}

/// The kind, name and summary of the item that an `export default` of a value (rendered from
/// export statement `n`) declares, by the value's kind; none when an assignment decides.
pub open spec fn js_default_export_head(tree: SyntaxTree, n: usize, value: usize, ts: bool) -> Option<
    (AstItemKind, Option<Seq<char>>, Seq<char>),
> {
    if is_function_value_spec(tree, value) {
        Some(
            (
                AstItemKind::Function,
                Some("default"@),
                function_summary(tree, false, "default"@, value, n),
            ),
        )
    } else if tree.kind_of(value) == "class"@ {
        Some((AstItemKind::Class, Some("default"@), class_summary(tree, "default"@, value)))
    } else if tree.kind_of(value) == "object"@ {
        Some((AstItemKind::Module, Some("default"@), "object "@ + "default"@))
    } else if ts && has_child_of_kind(tree, n, "default"@) {
        Some((AstItemKind::Use, Some("default"@), node_text_spec(tree, n)))
    } else {
        None
    }
}

/// The kind, name and summary of the item of a variable declarator with an identifier name:
/// the function, class or object that it holds, or in TypeScript, when it holds no value, a
/// constant `keyword name`.
pub open spec fn js_declarator_head(tree: SyntaxTree, render: usize, declarator: usize, ts: bool) -> Option<
    (AstItemKind, Option<Seq<char>>, Seq<char>),
> {
    match tree.field_child(declarator, "name"@) {
        Some(name_node) => if tree.kind_of(name_node) != "identifier"@ {
            None
        } else {
            let name = node_text_spec(tree, name_node);
            match tree.field_child(declarator, "value"@) {
                Some(v) => {
                    let d = js_unwrapped(tree, v);
                    if is_function_value_spec(tree, d) {
                        Some(
                            (
                                AstItemKind::Function,
                                Some(name),
                                function_summary(tree, false, name, d, render),
                            ),
                        )
                    } else if tree.kind_of(d) == "class"@ {
                        Some((AstItemKind::Class, Some(name), class_summary(tree, name, d)))
                    } else if tree.kind_of(d) == "object"@ {
                        Some((AstItemKind::Module, Some(name), "object "@ + name))
                    } else {
                        None
                    }
                },
                None => if ts {
                    Some(
                        (
                            AstItemKind::Const,
                            Some(name),
                            declaration_keyword_spec(tree, declaration_of(tree, declarator)) + seq![
                                ' ',
                            ] + name,
                        ),
                    )
                } else {
                    None
                },
            }
        },
        None => None,
    }
}

/// The heads of the items of declarators `ds`, in order, skipping those that give none.
pub open spec fn js_declarator_heads(tree: SyntaxTree, render: usize, ds: Seq<usize>, ts: bool) -> Seq<
    (AstItemKind, Option<Seq<char>>, Seq<char>),
>
    decreases ds.len(),
{
    if ds.len() == 0 {
        Seq::empty()
    } else {
        let before = js_declarator_heads(tree, render, ds.drop_last(), ts);
        match js_declarator_head(tree, render, ds.last(), ts) {
            Some(h) => before.push(h),
            None => before,
        }
    }
}

/// The variable declarators of a declaration, in order.
pub open spec fn variable_declarators(tree: SyntaxTree, declaration: usize) -> Seq<usize> {
    tree.named_children_spec(declaration).filter(|c: usize| tree.kind_of(c) == "variable_declarator"@)
}

/// The heads of the items of a variable declaration.
pub open spec fn js_variable_heads(tree: SyntaxTree, render: usize, declaration: usize, ts: bool) -> Seq<
    (AstItemKind, Option<Seq<char>>, Seq<char>),
> {
    js_declarator_heads(tree, render, variable_declarators(tree, declaration), ts)
}

/// The heads of the constants that the children `cs` of an ambient variable declaration give:
/// `keyword name` for each variable declarator with a name.
pub open spec fn ambient_const_heads(tree: SyntaxTree, declaration: usize, cs: Seq<usize>) -> Seq<
    (AstItemKind, Option<Seq<char>>, Seq<char>),
>
    decreases cs.len(),
{
    if cs.len() == 0 {
        Seq::empty()
    } else {
        let before = ambient_const_heads(tree, declaration, cs.drop_last());
        let c = cs.last();
        if tree.kind_of(c) == "variable_declarator"@ {
            match tree.field_child(c, "name"@) {
                Some(name_node) => before.push(
                    (
                        AstItemKind::Const,
                        Some(node_text_spec(tree, name_node)),
                        declaration_keyword_spec(tree, declaration) + seq![' '] + node_text_spec(
                            tree,
                            name_node,
                        ),
                    ),
                ),
                None => before,
            }
        } else {
            before
        }
    }
}

/// The heads of the items that an exported or ambient declaration `d` (rendered from `render`)
/// declares.
pub open spec fn js_declaration_heads(tree: SyntaxTree, render: usize, d: usize, ts: bool) -> Seq<
    (AstItemKind, Option<Seq<char>>, Seq<char>),
>
    decreases tree.nodes@.len() - d, 1nat,
{
    let kind = tree.kind_of(d);
    match js_declaration_head(tree, render, d, ts) {
        Some(h) => seq![h],
        None => if kind == "lexical_declaration"@ || kind == "variable_declaration"@ {
            js_variable_heads(tree, render, d, ts)
        } else if ts && kind == "ambient_declaration"@ {
            js_ambient_heads(tree, render, d, ts)
        } else {
            Seq::empty()
        },
    }
}

/// The heads of the items of a `declare` statement: a `global` module for a block, the
/// constants of a variable declaration, or what the declaration declares.
pub open spec fn js_ambient_heads(tree: SyntaxTree, render: usize, ambient: usize, ts: bool) -> Seq<
    (AstItemKind, Option<Seq<char>>, Seq<char>),
>
    decreases tree.nodes@.len() - ambient, 0nat,
{
    match first_named_child_spec(tree, ambient) {
        Some(d) => if tree.kind_of(d) == "statement_block"@ {
            seq![(AstItemKind::Module, Some("global"@), "module"@ + seq![' '] + "global"@)]
        } else if tree.kind_of(d) == "lexical_declaration"@ || tree.kind_of(d)
            == "variable_declaration"@ {
            ambient_const_heads(tree, d, tree.named_children_spec(d))
        } else if ambient < d < tree.nodes@.len() {
            js_declaration_heads(tree, render, d, ts)
        } else {
            Seq::empty()
        },
        None => Seq::empty(),
    }
}

/// The head of a class field whose value is a function: a method named by the field.
pub open spec fn js_callable_field_head(tree: SyntaxTree, n: usize) -> Option<
    (AstItemKind, Option<Seq<char>>, Seq<char>),
> {
    let name_node = match tree.field_child(n, "property"@) {
        Some(p) => Some(p),
        None => tree.field_child(n, "name"@),
    };
    match name_node {
        Some(p) => {
            let name = property_name_spec(tree, p);
            match tree.field_child(n, "value"@) {
                Some(v) => {
                    let value = js_unwrapped(tree, v);
                    if is_function_value_spec(tree, value) {
                        Some(
                            (
                                AstItemKind::Function,
                                Some(name),
                                function_summary(tree, true, name, value, n),
                            ),
                        )
                    } else {
                        None
                    }
                },
                None => None,
            }
        },
        None => None,
    }
}

/// The heads of the items of a class field: a method for a function value, else in TypeScript
/// a field `field name` (`accessor name` for an accessor).
pub open spec fn js_field_heads(tree: SyntaxTree, n: usize, ts: bool) -> Seq<
    (AstItemKind, Option<Seq<char>>, Seq<char>),
> {
    match js_callable_field_head(tree, n) {
        Some(h) => seq![h],
        None => if ts {
            seq![
                (
                    AstItemKind::Field,
                    Some(ts_field_name(tree, n)),
                    (if has_child_of_kind(tree, n, "accessor"@) {
                        "accessor"@
                    } else {
                        "field"@
                    }) + seq![' '] + ts_field_name(tree, n),
                ),
            ]
        } else {
            Seq::empty()
        },
    }
}

/// The heads of the items of an `export` statement: for TypeScript, `export as namespace` and
/// `export =` give one binding; an exported declaration gives what it declares; an exported
/// value the function, class or object named `default` that it is (or for TypeScript a
/// `default` binding, or else what an assignment declares); a bare TypeScript `export default`
/// gives one binding.
pub open spec fn js_export_heads(tree: SyntaxTree, n: usize, ts: bool) -> Seq<
    (AstItemKind, Option<Seq<char>>, Seq<char>),
> {
    if ts && has_child_of_kind(tree, n, "as"@) && has_child_of_kind(tree, n, "namespace"@) {
        seq![(AstItemKind::Use, Some("export-as-namespace"@), node_text_spec(tree, n))]
    } else if ts && has_child_of_kind(tree, n, "="@) {
        seq![(AstItemKind::Use, Some("export="@), node_text_spec(tree, n))]
    } else {
        match tree.field_child(n, "declaration"@) {
            Some(d) => js_declaration_heads(tree, n, d, ts),
            None => match tree.field_child(n, "value"@) {
                Some(v) => {
                    let value = js_unwrapped(tree, v);
                    match js_default_export_head(tree, n, value, ts) {
                        Some(h) => seq![h],
                        None => match js_assignment_head(tree, n, value) {
                            Some(h) => seq![h],
                            None => Seq::empty(),
                        },
                    }
                },
                None => if ts && has_child_of_kind(tree, n, "default"@) {
                    seq![(AstItemKind::Use, Some("default"@), node_text_spec(tree, n))]
                } else {
                    Seq::empty()
                },
            },
        }
    }
}

/// The heads of the items that a statement or class member declares.
pub open spec fn js_statement_heads(tree: SyntaxTree, n: usize, ts: bool) -> Seq<
    (AstItemKind, Option<Seq<char>>, Seq<char>),
> {
    let kind = tree.kind_of(n);
    match js_statement_head(tree, n, ts) {
        Some(h) => seq![h],
        None => if kind == "field_definition"@ || kind == "public_field_definition"@ {
            js_field_heads(tree, n, ts)
        } else if kind == "lexical_declaration"@ || kind == "variable_declaration"@ {
            js_variable_heads(tree, n, n, ts)
        } else if kind == "export_statement"@ {
            js_export_heads(tree, n, ts)
        } else if kind == "expression_statement"@ {
            js_expression_statement_heads(tree, n, ts)
        } else if ts && kind == "ambient_declaration"@ {
            js_ambient_heads(tree, n, n, ts)
        } else {
            Seq::empty()
        },
    }
}

/// The text of the `name` field of a declaration, or `<anonymous>`.
pub open spec fn js_name_text(tree: SyntaxTree, n: usize) -> Seq<char> {
    match tree.field_child(n, "name"@) {
        Some(c) => crate::outline_common::node_text_spec(tree, c),
        None => "<anonymous>"@,
    }
}

/// The items that a statement or member declares.
fn parse_js_like_items(tree: &SyntaxTree, docs: &JsDocs, n: usize, flavor: JsFlavor) -> (r: Vec<AstItem>)
    requires
        tree.wf(),
        tree.valid_node(n),
        docs.wf(tree),
    ensures
        heads(r@) == js_statement_heads(*tree, n, flavor == JsFlavor::TypeScript),
    decreases tree.nodes@.len() - n, 6int,
{
    let ts = flavor == JsFlavor::TypeScript;
    let mut out: Vec<AstItem> = Vec::new();
    if tree.kind_is(n, "class_declaration") || tree.kind_is(n, "abstract_class_declaration") {
        out.push(parse_js_class_item(tree, docs, n, n, flavor, None));
    } else if tree.kind_is(n, "function_declaration") || tree.kind_is(
        n,
        "generator_function_declaration",
    ) || tree.kind_is(n, "function_signature") {
        out.push(parse_js_function_item(tree, docs, JsFunctionKind::Function, n, n, flavor, None));
    } else if tree.kind_is(n, "method_definition") || tree.kind_is(n, "method_signature")
        || tree.kind_is(n, "abstract_method_signature") {
        out.push(parse_js_function_item(tree, docs, JsFunctionKind::Method, n, n, flavor, None));
    } else if tree.kind_is(n, "field_definition") || tree.kind_is(n, "public_field_definition") {
        match parse_js_callable_field_item(tree, docs, n, flavor) {
            Some(item) => out.push(item),
            None => if ts {
                out.push(parse_ts_field_item(tree, docs, n, "field"));
            },
        }
    } else if ts && tree.kind_is(n, "property_signature") {
        out.push(parse_ts_field_item(tree, docs, n, "property"));
    } else if ts && tree.kind_is(n, "call_signature") {
        out.push(parse_ts_unnamed_signature_item(tree, docs, n, "call", "call signature"));
    } else if ts && tree.kind_is(n, "construct_signature") {
        out.push(parse_ts_unnamed_signature_item(tree, docs, n, "new", "construct signature"));
    } else if ts && tree.kind_is(n, "index_signature") {
        out.push(parse_ts_unnamed_signature_item(tree, docs, n, "index", "index signature"));
    } else if tree.kind_is(n, "lexical_declaration") || tree.kind_is(n, "variable_declaration") {
        return parse_js_variable_declaration_items(tree, docs, n, n, flavor);
    } else if tree.kind_is(n, "export_statement") {
        return parse_js_export_items(tree, docs, n, flavor);
    } else if tree.kind_is(n, "expression_statement") {
        return parse_js_expression_statement_items(tree, docs, n, flavor);
    } else if ts && tree.kind_is(n, "interface_declaration") {
        out.push(parse_js_interface_item(tree, docs, n, n, flavor));
    } else if ts && tree.kind_is(n, "enum_declaration") {
        out.push(
            parse_js_simple_item(tree, docs, AstItemKind::Enum, js_enum_keyword(tree, n), n, n),
        );
    } else if ts && tree.kind_is(n, "type_alias_declaration") {
        out.push(parse_js_simple_item(tree, docs, AstItemKind::TypeAlias, "type", n, n));
    } else if ts && (tree.kind_is(n, "module") || tree.kind_is(n, "internal_module")) {
        out.push(parse_js_module_item(tree, docs, n, n, flavor));
    } else if ts && tree.kind_is(n, "ambient_declaration") {
        return parse_ts_ambient_items(tree, docs, n, n, flavor);
    }
    out
}

/// The items that an exported or ambient declaration declares, rendered from `render`.
fn parse_js_declaration_items(
    tree: &SyntaxTree,
    docs: &JsDocs,
    render: usize,
    declaration: usize,
    flavor: JsFlavor,
) -> (r: Vec<AstItem>)
    requires
        tree.wf(),
        tree.valid_node(render),
        tree.valid_node(declaration),
        docs.wf(tree),
    ensures
        heads(r@) == js_declaration_heads(*tree, render, declaration, flavor == JsFlavor::TypeScript),
    decreases tree.nodes@.len() - declaration, 4int,
{
    let ts = flavor == JsFlavor::TypeScript;
    let d = declaration;
    let mut out: Vec<AstItem> = Vec::new();
    if tree.kind_is(d, "class_declaration") || tree.kind_is(d, "abstract_class_declaration") {
        out.push(parse_js_class_item(tree, docs, render, d, flavor, None));
    } else if tree.kind_is(d, "function_declaration") || tree.kind_is(
        d,
        "generator_function_declaration",
    ) || tree.kind_is(d, "function_signature") {
        out.push(
            parse_js_function_item(tree, docs, JsFunctionKind::Function, render, d, flavor, None),
        );
    } else if tree.kind_is(d, "lexical_declaration") || tree.kind_is(d, "variable_declaration") {
        return parse_js_variable_declaration_items(tree, docs, render, d, flavor);
    } else if ts && tree.kind_is(d, "interface_declaration") {
        out.push(parse_js_interface_item(tree, docs, render, d, flavor));
    } else if ts && tree.kind_is(d, "enum_declaration") {
        out.push(
            parse_js_simple_item(
                tree,
                docs,
                AstItemKind::Enum,
                js_enum_keyword(tree, d),
                render,
                d,
            ),
        );
    } else if ts && tree.kind_is(d, "type_alias_declaration") {
        out.push(parse_js_simple_item(tree, docs, AstItemKind::TypeAlias, "type", render, d));
    } else if ts && (tree.kind_is(d, "module") || tree.kind_is(d, "internal_module")) {
        out.push(parse_js_module_item(tree, docs, render, d, flavor));
    } else if ts && tree.kind_is(d, "ambient_declaration") {
        return parse_ts_ambient_items(tree, docs, render, d, flavor);
    }
    out
}

/// The items of an `export` statement.
fn parse_js_export_items(tree: &SyntaxTree, docs: &JsDocs, n: usize, flavor: JsFlavor) -> (r: Vec<AstItem>)
    requires
        tree.wf(),
        tree.valid_node(n),
        docs.wf(tree),
    ensures
        heads(r@) == js_export_heads(*tree, n, flavor == JsFlavor::TypeScript),
    decreases tree.nodes@.len() - n, 5int,
{
    let ts = flavor == JsFlavor::TypeScript;
    let mut out: Vec<AstItem> = Vec::new();
    if ts && direct_child_with_kind(tree, n, "as").is_some() && direct_child_with_kind(
        tree,
        n,
        "namespace",
    ).is_some() {
        out.push(parse_ts_export_binding_item(tree, docs, n, "export-as-namespace"));
        return out;
    }
    if ts && direct_child_with_kind(tree, n, "=").is_some() {
        out.push(parse_ts_export_binding_item(tree, docs, n, "export="));
        return out;
    }
    match tree.child_by_field(n, "declaration") {
        Some(declaration) => {
            return parse_js_declaration_items(tree, docs, n, declaration, flavor);
        },
        None => {},
    }
    match tree.child_by_field(n, "value") {
        Some(v) => {
            let value = unwrap_parenthesized(tree, v);
            if is_function_value(tree, value) {
                out.push(
                    parse_js_function_item(
                        tree,
                        docs,
                        JsFunctionKind::Function,
                        n,
                        value,
                        flavor,
                        Some(chars_of("default")),
                    ),
                );
            } else if tree.kind_is(value, "class") {
                out.push(
                    parse_js_class_item(tree, docs, n, value, flavor, Some(chars_of("default"))),
                );
            } else if tree.kind_is(value, "object") {
                out.push(parse_js_object_item(tree, docs, n, value, flavor, chars_of("default")));
            } else if ts && direct_child_with_kind(tree, n, "default").is_some() {
                out.push(parse_ts_export_binding_item(tree, docs, n, "default"));
            } else {
                match parse_js_assignment_like_item(tree, docs, n, value, flavor) {
                    Some(item) => out.push(item),
                    None => {},
                }
            }
            proof {
                if out@.len() == 1 {
                    assert(heads(out@) =~= seq![item_head(out@[0])]);
                } else {
                    assert(heads(out@) =~= Seq::empty());
                }
            }
            return out;
        },
        None => {},
    }
    if ts && direct_child_with_kind(tree, n, "default").is_some() {
        out.push(parse_ts_export_binding_item(tree, docs, n, "default"));
    }
    out
}

/// An `export =`, `export as namespace` or `export default` of a type-level name.
fn parse_ts_export_binding_item(tree: &SyntaxTree, docs: &JsDocs, n: usize, name: &str) -> (r: AstItem)
    requires
        tree.wf(),
        tree.valid_node(n),
        docs.wf(tree),
    ensures
        r.kind == AstItemKind::Use,
        opt_seq(r.name) == Some(name@),
        r.summary@ == crate::outline_common::node_text_spec(*tree, n),
{
    let text = tree.trimmed_node_text(n);
    let item_parts = parts(
        AstItemKind::Use,
        chars_of(name),
        location_for_node(tree, n),
        leading_item_docs(tree, docs, n),
        text.clone(),
        text,
        None,
    );
    make_item(item_parts, Vec::new())
}

fn parse_js_expression_statement_items(tree: &SyntaxTree, docs: &JsDocs, n: usize, flavor: JsFlavor) -> (r: Vec<
    AstItem,
>)
    requires
        tree.wf(),
        tree.valid_node(n),
        docs.wf(tree),
    ensures
        heads(r@) == js_expression_statement_heads(*tree, n, flavor == JsFlavor::TypeScript),
    decreases tree.nodes@.len() - n, 5int,
{
    let mut out: Vec<AstItem> = Vec::new();
    let first = match first_named_child(tree, n) {
        Some(c) => c,
        None => return out,
    };
    let value = unwrap_parenthesized(tree, first);
    if flavor == JsFlavor::TypeScript && tree.kind_is(value, "internal_module") {
        out.push(parse_js_module_item(tree, docs, n, value, flavor));
        return out;
    }
    match parse_js_assignment_like_item(tree, docs, n, value, flavor) {
        Some(item) => out.push(item),
        None => {},
    }
    out
}

/// The items of a `declare` statement.
fn parse_ts_ambient_items(
    tree: &SyntaxTree,
    docs: &JsDocs,
    render: usize,
    ambient: usize,
    flavor: JsFlavor,
) -> (r: Vec<AstItem>)
    requires
        tree.wf(),
        tree.valid_node(render),
        tree.valid_node(ambient),
        docs.wf(tree),
    ensures
        heads(r@) == js_ambient_heads(*tree, render, ambient, flavor == JsFlavor::TypeScript),
    decreases tree.nodes@.len() - ambient, 3int,
{
    let declaration = match first_named_child(tree, ambient) {
        Some(d) => d,
        None => {
            assert(heads(Seq::<AstItem>::empty()) =~= Seq::empty());
            return Vec::new();
        },
    };
    if tree.kind_is(declaration, "statement_block") {
        let mut out: Vec<AstItem> = Vec::new();
        out.push(
            parse_js_module_item_with(
                tree,
                docs,
                render,
                ambient,
                Some(declaration),
                flavor,
                Some(chars_of("global")),
                Some("module"),
            ),
        );
        assert(heads(out@) =~= seq![item_head(out@[0])]);
        return out;
    }
    if tree.kind_is(declaration, "lexical_declaration") || tree.kind_is(
        declaration,
        "variable_declaration",
    ) {
        return parse_ts_ambient_variable_items(tree, docs, render, declaration);
    }
    parse_js_declaration_items(tree, docs, render, declaration, flavor)
}

/// The item that an assignment of a function, class or object to a named target declares.
fn parse_js_assignment_like_item(
    tree: &SyntaxTree,
    docs: &JsDocs,
    render: usize,
    value: usize,
    flavor: JsFlavor,
) -> (r: Option<AstItem>)
    requires
        tree.wf(),
        tree.valid_node(render),
        tree.valid_node(value),
        docs.wf(tree),
    ensures
        r is Some <==> js_assignment_head(*tree, render, value) is Some,
        r matches Some(item) ==> Some(item_head(item)) == js_assignment_head(*tree, render, value),
    decreases tree.nodes@.len() - value, 3int,
{
    if !tree.kind_is(value, "assignment_expression") {
        return None;
    }
    let left = match tree.child_by_field(value, "left") {
        Some(l) => l,
        None => return None,
    };
    let name = match js_member_path(tree, left) {
        Some(name) => name,
        None => return None,
    };
    let right = match tree.child_by_field(value, "right") {
        Some(r) => r,
        None => return None,
    };
    let definition = unwrap_parenthesized(tree, right);
    if is_function_value(tree, definition) {
        Some(
            parse_js_function_item(
                tree,
                docs,
                JsFunctionKind::Function,
                render,
                definition,
                flavor,
                Some(name),
            ),
        )
    } else if tree.kind_is(definition, "class") {
        Some(parse_js_class_item(tree, docs, render, definition, flavor, Some(name)))
    } else if tree.kind_is(definition, "object") {
        Some(parse_js_object_item(tree, docs, render, definition, flavor, name))
    } else {
        None
    }
}

/// The items of a variable declaration: one per declarator that holds a function, class or
/// object (or, in TypeScript, no value). Only the first keeps the declaration's comments, and
/// none is edit-ready when the declaration has several declarators.
fn parse_js_variable_declaration_items(
    tree: &SyntaxTree,
    docs: &JsDocs,
    render: usize,
    declaration: usize,
    flavor: JsFlavor,
) -> (r: Vec<AstItem>)
    requires
        tree.wf(),
        tree.valid_node(render),
        tree.valid_node(declaration),
        docs.wf(tree),
    ensures
        heads(r@) == js_variable_heads(*tree, render, declaration, flavor == JsFlavor::TypeScript),
    decreases tree.nodes@.len() - declaration, 3int,
{
    let children = tree.named_children(declaration);
    let ghost pred = |c: usize| tree.kind_of(c) == "variable_declarator"@;
    let mut declarators: Vec<usize> = Vec::new();
    let mut k: usize = 0;
    while k < children.len()
        invariant
            tree.wf(),
            declaration < tree.nodes@.len(),
            k <= children@.len(),
            children@ == tree.named_children_spec(declaration),
            pred == (|c: usize| tree.kind_of(c) == "variable_declarator"@),
            declarators@ == children@.subrange(0, k as int).filter(pred),
            forall|j: int| 0 <= j < children@.len() ==> declaration < #[trigger] children@[j] < tree.nodes@.len(),
            forall|j: int| 0 <= j < declarators@.len() ==> declaration < #[trigger] declarators@[j] < tree.nodes@.len(),
        decreases children.len() - k,
    {
        proof {
            let next = children@.subrange(0, k + 1);
            assert(next.drop_last() =~= children@.subrange(0, k as int));
            reveal_with_fuel(Seq::filter, 1);
        }
        if tree.kind_is(children[k], "variable_declarator") {
            declarators.push(children[k]);
        }
        k = k + 1;
    }
    assert(children@.subrange(0, children@.len() as int) =~= children@);
    let ghost ds = declarators@;
    let ts = flavor == JsFlavor::TypeScript;
    let owns_whole_declaration = declarators.len() == 1;
    let mut items: Vec<AstItem> = Vec::new();
    let mut k: usize = 0;
    assert(heads(items@) =~= js_declarator_heads(*tree, render, ds.subrange(0, 0), ts));
    while k < declarators.len()
        invariant
            tree.wf(),
            docs.wf(tree),
            render < tree.nodes@.len(),
            declaration < tree.nodes@.len(),
            k <= declarators@.len(),
            ds == declarators@,
            ts == (flavor == JsFlavor::TypeScript),
            forall|j: int| 0 <= j < declarators@.len() ==> declaration < #[trigger] declarators@[j] < tree.nodes@.len(),
            heads(items@) == js_declarator_heads(*tree, render, ds.subrange(0, k as int), ts),
        decreases declarators.len() - k,
    {
        let ghost before = items@;
        proof {
            assert(ds.subrange(0, k + 1).drop_last() =~= ds.subrange(0, k as int));
        }
        match parse_js_variable_declarator_item(tree, docs, render, declarators[k], flavor) {
            Some(item) => {
                let mut item = item;
                if !owns_whole_declaration {
                    item.location.is_edit_ready = false;
                }
                if items.len() > 0 {
                    item.docs = None;
                }
                items.push(item);
                assert(heads(items@) =~= heads(before).push(item_head(item)));
            },
            None => {},
        }
        k = k + 1;
    }
    assert(ds.subrange(0, ds.len() as int) =~= ds);
    items
}

fn parse_js_variable_declarator_item(
    tree: &SyntaxTree,
    docs: &JsDocs,
    render: usize,
    declarator: usize,
    flavor: JsFlavor,
) -> (r: Option<AstItem>)
    requires
        tree.wf(),
        tree.valid_node(render),
        tree.valid_node(declarator),
        docs.wf(tree),
    ensures
        r is Some <==> js_declarator_head(*tree, render, declarator, flavor == JsFlavor::TypeScript)
            is Some,
        r matches Some(item) ==> Some(item_head(item)) == js_declarator_head(
            *tree,
            render,
            declarator,
            flavor == JsFlavor::TypeScript,
        ),
    decreases tree.nodes@.len() - declarator, 2int,
{
    let name_node = match tree.child_by_field(declarator, "name") {
        Some(n) => n,
        None => return None,
    };
    if !tree.kind_is(name_node, "identifier") {
        return None;
    }
    let name = tree.trimmed_node_text(name_node);
    let v = match tree.child_by_field(declarator, "value") {
        Some(v) => v,
        None => {
            if flavor == JsFlavor::TypeScript {
                return Some(parse_ts_variable_declarator_without_value(tree, docs, render, declarator, name));
            }
            return None;
        },
    };
    let value = unwrap_parenthesized(tree, v);
    let mut item = if is_function_value(tree, value) {
        parse_js_function_item(tree, docs, JsFunctionKind::Function, render, value, flavor, Some(name))
    } else if tree.kind_is(value, "class") {
        parse_js_class_item(tree, docs, render, value, flavor, Some(name))
    } else if tree.kind_is(value, "object") {
        parse_js_object_item(tree, docs, render, value, flavor, name)
    } else {
        return None;
    };
    item.signature = Some(
        crate::text::string_of(&js_variable_declarator_signature(tree, render, declarator, value)),
    );
    Some(item)
}

/// The declaration that holds a declarator: its parent (itself at the root).
pub open spec fn declaration_of(tree: SyntaxTree, declarator: usize) -> usize {
    match tree.nodes@[declarator as int].parent {
        Some(p) => p,
        None => declarator,
    }
}

/// The declaration that holds a declarator.
fn declarator_declaration(tree: &SyntaxTree, declarator: usize) -> (r: usize)
    requires
        tree.wf(),
        tree.valid_node(declarator),
    ensures
        r < tree.nodes@.len(),
        r == declaration_of(*tree, declarator),
{
    match tree.nodes[declarator].parent {
        Some(p) => p,
        None => declarator,
    }
}

fn parse_ts_variable_declarator_without_value(
    tree: &SyntaxTree,
    docs: &JsDocs,
    render: usize,
    declarator: usize,
    name: Vec<char>,
) -> (r: AstItem)
    requires
        tree.wf(),
        tree.valid_node(render),
        tree.valid_node(declarator),
        docs.wf(tree),
    ensures
        r.kind == AstItemKind::Const,
        opt_seq(r.name) == Some(name@),
        r.summary@ == declaration_keyword_spec(*tree, declaration_of(*tree, declarator)) + seq![' ']
            + name@,
{
    let declaration = declarator_declaration(tree, declarator);
    let keyword = declaration_keyword(tree, declaration);
    let text = tree.trimmed_node_text(render);
    let item_parts = parts(
        AstItemKind::Const,
        name.clone(),
        location_for_node(tree, render),
        leading_item_docs(tree, docs, render),
        keyword_name(&keyword, &name),
        text.clone(),
        Some(text),
    );
    make_item(item_parts, Vec::new())
}

/// `export const name = (...) =>` and the like: the text that leads to the declarator, then
/// the declarator up to its value's body.
/// The signature of a declarator whose value is `value`: the text that leads from `render` to
/// the declaration (and a space) when there is any, the declaration's keyword, a space, and the
/// declarator up to its value's body (for an object, its `{`).
pub open spec fn declarator_signature_spec(tree: SyntaxTree, render: usize, declarator: usize, value: usize) -> Seq<
    char,
> {
    let declaration = declaration_of(tree, declarator);
    let prefix = trimmed_between_spec(
        tree,
        tree.nodes@[render as int].start as int,
        tree.nodes@[declaration as int].start as int,
    );
    let body = match tree.field_child(value, "body"@) {
        Some(b) => Some(b),
        None => if tree.kind_of(value) == "object"@ {
            child_of_kind(tree, value, "{"@)
        } else {
            None
        },
    };
    (if prefix.len() > 0 {
        prefix + seq![' ']
    } else {
        Seq::empty()
    }) + declaration_keyword_spec(tree, declaration) + seq![' '] + signature_spec(
        tree,
        declarator,
        body,
    )
}

fn js_variable_declarator_signature(tree: &SyntaxTree, render: usize, declarator: usize, value: usize) -> (r: Vec<char>)
    requires
        tree.wf(),
        tree.valid_node(render),
        tree.valid_node(declarator),
        tree.valid_node(value),
    ensures
        r@ == declarator_signature_spec(*tree, render, declarator, value),
{
    let declaration = declarator_declaration(tree, declarator);
    let keyword = declaration_keyword(tree, declaration);
    proof {
        lemma_node_in_source(tree, render);
        lemma_node_in_source(tree, declaration);
    }
    let export_prefix = trimmed_between(tree, tree.nodes[render].start, tree.nodes[declaration].start);
    let mut out: Vec<char> = Vec::new();
    if export_prefix.len() > 0 {
        push_all(&mut out, &export_prefix);
        out.push(' ');
    }
    let ghost lead = out@;
    push_all(&mut out, &keyword);
    out.push(' ');
    let body = match tree.child_by_field(value, "body") {
        Some(b) => Some(b),
        None => if tree.kind_is(value, "object") {
            direct_child_with_kind(tree, value, "{")
        } else {
            None
        },
    };
    let ghost mid = out@;
    push_all(&mut out, &signature_text_with_body(tree, declarator, body));
    assert(lead =~= if export_prefix@.len() > 0 {
        export_prefix@ + seq![' ']
    } else {
        Seq::empty()
    });
    out
}

/// A class field whose value is a function: a method.
fn parse_js_callable_field_item(tree: &SyntaxTree, docs: &JsDocs, n: usize, flavor: JsFlavor) -> (r: Option<
    AstItem,
>)
    requires
        tree.wf(),
        tree.valid_node(n),
        docs.wf(tree),
    ensures
        r is Some <==> js_callable_field_head(*tree, n) is Some,
        r matches Some(item) ==> Some(item_head(item)) == js_callable_field_head(*tree, n),
    decreases tree.nodes@.len() - n, 5int,
{
    let name_node = match tree.child_by_field(n, "property") {
        Some(p) => p,
        None => match tree.child_by_field(n, "name") {
            Some(p) => p,
            None => return None,
        },
    };
    let name = js_property_name(tree, name_node);
    let v = match tree.child_by_field(n, "value") {
        Some(v) => v,
        None => return None,
    };
    let value = unwrap_parenthesized(tree, v);
    if is_function_value(tree, value) {
        Some(parse_js_function_item(tree, docs, JsFunctionKind::Method, n, value, flavor, Some(name)))
    } else {
        None
    }
}

/// A TypeScript field or property signature.
fn parse_ts_field_item(tree: &SyntaxTree, docs: &JsDocs, n: usize, default_kind: &str) -> (r: AstItem)
    requires
        tree.wf(),
        tree.valid_node(n),
        docs.wf(tree),
    ensures
        r.kind == AstItemKind::Field,
        opt_seq(r.name) == Some(ts_field_name(*tree, n)),
        r.summary@ == (if has_child_of_kind(*tree, n, "accessor"@) {
            "accessor"@
        } else {
            default_kind@
        }) + seq![' '] + ts_field_name(*tree, n),
{
    let name_node = match tree.child_by_field(n, "property") {
        Some(p) => Some(p),
        None => tree.child_by_field(n, "name"),
    };
    let name = match name_node {
        Some(p) => js_property_name(tree, p),
        None => chars_of("<anonymous>"),
    };
    let kind: &str = if direct_child_with_kind(tree, n, "accessor").is_some() {
        "accessor"
    } else {
        default_kind
    };
    let owned_start = js_declaration_start_node(tree, n);
    let item_parts = parts(
        AstItemKind::Field,
        name.clone(),
        location_for_js_node(tree, owned_start, n),
        leading_item_docs(tree, docs, owned_start),
        keyword_name(&chars_of(kind), &name),
        js_owned_node_text(tree, owned_start, n),
        None,
    );
    make_item(item_parts, Vec::new())
}

/// Whether a constructor parameter declares a property: it has an accessibility, `override`
/// or `readonly` modifier.
pub open spec fn declares_property(tree: SyntaxTree, parameter: usize) -> bool {
    has_child_of_kind(tree, parameter, "accessibility_modifier"@) || has_child_of_kind(
        tree,
        parameter,
        "override_modifier"@,
    ) || has_child_of_kind(tree, parameter, "readonly"@)
}

/// The heads of the properties that parameters `ps` declare: `property name` for each that
/// declares one and has a name (or pattern).
pub open spec fn parameter_property_heads(tree: SyntaxTree, ps: Seq<usize>) -> Seq<
    (AstItemKind, Option<Seq<char>>, Seq<char>),
>
    decreases ps.len(),
{
    if ps.len() == 0 {
        Seq::empty()
    } else {
        let before = parameter_property_heads(tree, ps.drop_last());
        let p = ps.last();
        let name_node = match tree.field_child(p, "name"@) {
            Some(x) => Some(x),
            None => tree.field_child(p, "pattern"@),
        };
        if declares_property(tree, p) {
            match name_node {
                Some(x) => before.push(
                    (
                        AstItemKind::Field,
                        Some(node_text_spec(tree, x)),
                        "property "@ + node_text_spec(tree, x),
                    ),
                ),
                None => before,
            }
        } else {
            before
        }
    }
}

/// The heads of the properties that a TypeScript constructor declares through its parameters.
pub open spec fn ts_parameter_property_heads(tree: SyntaxTree, n: usize) -> Seq<
    (AstItemKind, Option<Seq<char>>, Seq<char>),
> {
    let kind = tree.kind_of(n);
    if !(kind == "method_definition"@ || kind == "method_signature"@ || kind
        == "abstract_method_signature"@) {
        Seq::empty()
    } else {
        match tree.field_child(n, "name"@) {
            Some(name) => if node_text_spec(tree, name) != "constructor"@ {
                Seq::empty()
            } else {
                match tree.field_child(n, "parameters"@) {
                    Some(ps) => parameter_property_heads(tree, tree.named_children_spec(ps)),
                    None => Seq::empty(),
                }
            },
            None => Seq::empty(),
        }
    }
}

/// The properties that a TypeScript constructor declares through parameters with an
/// accessibility, `override` or `readonly` modifier.
fn parse_ts_constructor_parameter_properties(tree: &SyntaxTree, docs: &JsDocs, n: usize) -> (r: Vec<AstItem>)
    requires
        tree.wf(),
        tree.valid_node(n),
        docs.wf(tree),
    ensures
        heads(r@) == ts_parameter_property_heads(*tree, n),
{
    let mut out: Vec<AstItem> = Vec::new();
    assert(heads(out@) =~= Seq::empty());
    if !(tree.kind_is(n, "method_definition") || tree.kind_is(n, "method_signature")
        || tree.kind_is(n, "abstract_method_signature")) {
        return out;
    }
    match tree.child_by_field(n, "name") {
        Some(name) => {
            if !chars_eq_str(&tree.trimmed_node_text(name), "constructor") {
                return out;
            }
        },
        None => return out,
    }
    let parameters = match tree.child_by_field(n, "parameters") {
        Some(p) => p,
        None => return out,
    };
    let children = tree.named_children(parameters);
    let mut k: usize = 0;
    assert(children@.subrange(0, 0) =~= Seq::<usize>::empty());
    while k < children.len()
        invariant
            tree.wf(),
            parameters < tree.nodes@.len(),
            k <= children@.len(),
            forall|j: int| 0 <= j < children@.len() ==> parameters < #[trigger] children@[j] < tree.nodes@.len(),
            heads(out@) == parameter_property_heads(*tree, children@.subrange(0, k as int)),
        decreases children.len() - k,
    {
        let parameter = children[k];
        let ghost before = out@;
        proof {
            assert(children@.subrange(0, k + 1).drop_last() =~= children@.subrange(0, k as int));
        }
        let declares = direct_child_with_kind(tree, parameter, "accessibility_modifier").is_some()
            || direct_child_with_kind(tree, parameter, "override_modifier").is_some()
            || direct_child_with_kind(tree, parameter, "readonly").is_some();
        if declares {
            let name_node = match tree.child_by_field(parameter, "name") {
                Some(p) => Some(p),
                None => tree.child_by_field(parameter, "pattern"),
            };
            match name_node {
                Some(name_node) => {
                    let name = tree.trimmed_node_text(name_node);
                    let item_parts = parts(
                        AstItemKind::Field,
                        name.clone(),
                        location_for_node(tree, parameter),
                        None,
                        prefixed("property ", &name),
                        tree.trimmed_node_text(parameter),
                        None,
                    );
                    out.push(make_item(item_parts, Vec::new()));
                    assert(heads(out@) =~= heads(before).push(item_head(out@[out@.len() - 1])));
                },
                None => {},
            }
        }
        k = k + 1;
    }
    assert(children@.subrange(0, children@.len() as int) =~= children@);
    out
}

/// A call, construct or index signature of a TypeScript type.
fn parse_ts_unnamed_signature_item(tree: &SyntaxTree, docs: &JsDocs, n: usize, name: &str, summary: &str) -> (r: AstItem)
    requires
        tree.wf(),
        tree.valid_node(n),
        docs.wf(tree),
    ensures
        r.kind == AstItemKind::Function,
        opt_seq(r.name) == Some(name@),
        r.summary@ == summary@,
{
    let owned_start = js_declaration_start_node(tree, n);
    let text = js_owned_node_text(tree, owned_start, n);
    let item_parts = parts(
        AstItemKind::Function,
        chars_of(name),
        location_for_js_node(tree, owned_start, n),
        leading_item_docs(tree, docs, owned_start),
        chars_of(summary),
        text.clone(),
        Some(text),
    );
    make_item(item_parts, Vec::new())
}

/// The constants of a `declare const/let/var` statement; only the first keeps its comments.
fn parse_ts_ambient_variable_items(tree: &SyntaxTree, docs: &JsDocs, render: usize, declaration: usize) -> (r: Vec<
    AstItem,
>)
    requires
        tree.wf(),
        tree.valid_node(render),
        tree.valid_node(declaration),
        docs.wf(tree),
    ensures
        heads(r@) == ambient_const_heads(*tree, declaration, tree.named_children_spec(declaration)),
{
    let keyword = declaration_keyword(tree, declaration);
    let children = tree.named_children(declaration);
    let mut out: Vec<AstItem> = Vec::new();
    let mut k: usize = 0;
    assert(children@.subrange(0, 0) =~= Seq::<usize>::empty());
    assert(heads(out@) =~= Seq::empty());
    while k < children.len()
        invariant
            tree.wf(),
            docs.wf(tree),
            render < tree.nodes@.len(),
            declaration < tree.nodes@.len(),
            k <= children@.len(),
            children@ == tree.named_children_spec(declaration),
            keyword@ == declaration_keyword_spec(*tree, declaration),
            forall|j: int| 0 <= j < children@.len() ==> declaration < #[trigger] children@[j] < tree.nodes@.len(),
            heads(out@) == ambient_const_heads(*tree, declaration, children@.subrange(0, k as int)),
        decreases children.len() - k,
    {
        let declarator = children[k];
        let ghost before = out@;
        proof {
            assert(children@.subrange(0, k + 1).drop_last() =~= children@.subrange(0, k as int));
        }
        if tree.kind_is(declarator, "variable_declarator") {
            match tree.child_by_field(declarator, "name") {
                Some(name_node) => {
                    let name = tree.trimmed_node_text(name_node);
                    let text = tree.trimmed_node_text(render);
                    let item_docs = if out.len() == 0 {
                        leading_item_docs(tree, docs, render)
                    } else {
                        None
                    };
                    let item_parts = parts(
                        AstItemKind::Const,
                        name.clone(),
                        location_for_node(tree, render),
                        item_docs,
                        keyword_name(&keyword, &name),
                        text.clone(),
                        Some(text),
                    );
                    out.push(make_item(item_parts, Vec::new()));
                    assert(heads(out@) =~= heads(before).push(item_head(out@[out@.len() - 1])));
                },
                None => {},
            }
        }
        k = k + 1;
    }
    assert(children@.subrange(0, children@.len() as int) =~= children@);
    out
}

/// An object literal bound to a name: a module of its function, class and object members.
fn parse_js_object_item(
    tree: &SyntaxTree,
    docs: &JsDocs,
    render: usize,
    definition: usize,
    flavor: JsFlavor,
    name: Vec<char>,
) -> (r: AstItem)
    requires
        tree.wf(),
        tree.valid_node(render),
        tree.valid_node(definition),
        docs.wf(tree),
    ensures
        r.kind == AstItemKind::Module,
        opt_seq(r.name) == Some(name@),
        r.summary@ == "object "@ + name@,
        heads(r.children@) == object_member_heads(*tree, tree.named_children_spec(definition)),
    decreases tree.nodes@.len() - definition, 1int,
{
    let open_brace = direct_child_with_kind(tree, definition, "{");
    let item_parts = parts(
        AstItemKind::Module,
        name.clone(),
        location_for_node(tree, render),
        leading_item_docs(tree, docs, render),
        prefixed("object ", &name),
        signature_text_with_body(tree, render, open_brace),
        Some(tree.trimmed_node_text(render)),
    );
    let children = collect_js_object_items(tree, docs, definition, flavor);
    make_item(item_parts, children)
}

/// The heads of the members `cs` of an object literal that outlines show: methods, and pairs
/// whose value is a function, class or object, named by their key.
pub open spec fn object_member_heads(tree: SyntaxTree, cs: Seq<usize>) -> Seq<
    (AstItemKind, Option<Seq<char>>, Seq<char>),
>
    decreases cs.len(),
{
    if cs.len() == 0 {
        Seq::empty()
    } else {
        let before = object_member_heads(tree, cs.drop_last());
        let c = cs.last();
        if tree.kind_of(c) == "method_definition"@ {
            before.push(
                (
                    AstItemKind::Function,
                    Some(js_name_text(tree, c)),
                    function_summary(tree, true, js_name_text(tree, c), c, c),
                ),
            )
        } else if tree.kind_of(c) == "pair"@ {
            match (tree.field_child(c, "key"@), tree.field_child(c, "value"@)) {
                (Some(key), Some(v)) => {
                    let name = property_name_spec(tree, key);
                    let value = js_unwrapped(tree, v);
                    if is_function_value_spec(tree, value) {
                        before.push(
                            (
                                AstItemKind::Function,
                                Some(name),
                                function_summary(tree, false, name, value, c),
                            ),
                        )
                    } else if tree.kind_of(value) == "class"@ {
                        before.push((AstItemKind::Class, Some(name), class_summary(tree, name, value)))
                    } else if tree.kind_of(value) == "object"@ {
                        before.push((AstItemKind::Module, Some(name), "object "@ + name))
                    } else {
                        before
                    }
                },
                _ => before,
            }
        } else {
            before
        }
    }
}

fn collect_js_object_items(tree: &SyntaxTree, docs: &JsDocs, object: usize, flavor: JsFlavor) -> (r: Vec<
    AstItem,
>)
    requires
        tree.wf(),
        tree.valid_node(object),
        docs.wf(tree),
    ensures
        heads(r@) == object_member_heads(*tree, tree.named_children_spec(object)),
    decreases tree.nodes@.len() - object, 0int,
{
    let children = tree.named_children(object);
    let mut out: Vec<AstItem> = Vec::new();
    let mut k: usize = 0;
    assert(heads(out@) =~= object_member_heads(*tree, children@.subrange(0, 0)));
    while k < children.len()
        invariant
            tree.wf(),
            docs.wf(tree),
            object < tree.nodes@.len(),
            k <= children@.len(),
            children@ == tree.named_children_spec(object),
            forall|j: int| 0 <= j < children@.len() ==> object < #[trigger] children@[j] < tree.nodes@.len(),
            heads(out@) == object_member_heads(*tree, children@.subrange(0, k as int)),
        decreases children.len() - k,
    {
        let child = children[k];
        let ghost before = out@;
        proof {
            assert(children@.subrange(0, k + 1).drop_last() =~= children@.subrange(0, k as int));
        }
        if tree.kind_is(child, "method_definition") {
            out.push(parse_js_function_item(tree, docs, JsFunctionKind::Method, child, child, flavor, None));
        } else if tree.kind_is(child, "pair") {
            match (tree.child_by_field(child, "key"), tree.child_by_field(child, "value")) {
                (Some(key), Some(v)) => {
                    let name = js_property_name(tree, key);
                    let value = unwrap_parenthesized(tree, v);
                    if is_function_value(tree, value) {
                        out.push(
                            parse_js_function_item(
                                tree,
                                docs,
                                JsFunctionKind::Function,
                                child,
                                value,
                                flavor,
                                Some(name),
                            ),
                        );
                    } else if tree.kind_is(value, "class") {
                        out.push(parse_js_class_item(tree, docs, child, value, flavor, Some(name)));
                    } else if tree.kind_is(value, "object") {
                        out.push(parse_js_object_item(tree, docs, child, value, flavor, name));
                    }
                },
                _ => {},
            }
        }
        proof {
            if out@.len() > before.len() {
                assert(heads(out@) =~= heads(before).push(item_head(out@[out@.len() - 1])));
            }
        }
        k = k + 1;
    }
    assert(children@.subrange(0, children@.len() as int) =~= children@);
    out
}

/// A function or method; the items of its body are its children.
fn parse_js_function_item(
    tree: &SyntaxTree,
    docs: &JsDocs,
    kind: JsFunctionKind,
    render: usize,
    definition: usize,
    flavor: JsFlavor,
    name_override: Option<Vec<char>>,
) -> (r: AstItem)
    requires
        tree.wf(),
        tree.valid_node(render),
        tree.valid_node(definition),
        docs.wf(tree),
    ensures
        r.kind == AstItemKind::Function,
        opt_seq(r.name) == Some(js_item_name(*tree, definition, name_override)),
        r.summary@ == function_summary(
            *tree,
            kind == JsFunctionKind::Method,
            js_item_name(*tree, definition, name_override),
            definition,
            render,
        ),
        heads(r.children@) == match tree.field_child(definition, "body"@) {
            Some(b) => if tree.kind_of(b) == "statement_block"@ {
                js_body_heads(*tree, b, flavor == JsFlavor::TypeScript)
            } else {
                Seq::empty()
            },
            None => Seq::empty(),
        },
    decreases tree.nodes@.len() - definition, 1int,
{
    let owned_start = js_declaration_start_node(tree, render);
    let name = match name_override {
        Some(name) => name,
        None => name_or_anonymous(child_text_by_field(tree, definition, "name")),
    };
    let body = tree.child_by_field(definition, "body");
    let signature = js_signature_text_with_body(tree, owned_start, render, body);
    let summary = summarize_js_function(tree, kind, &name, definition, render);
    let item_parts = parts(
        AstItemKind::Function,
        name,
        location_for_js_node(tree, owned_start, render),
        leading_item_docs(tree, docs, owned_start),
        summary,
        signature,
        Some(js_owned_node_text(tree, owned_start, render)),
    );
    let children = match body {
        Some(b) => if tree.kind_is(b, "statement_block") {
            collect_js_like_supported_items(tree, docs, b, flavor)
        } else {
            Vec::new()
        },
        None => Vec::new(),
    };
    make_item(item_parts, children)
}

/// A class; the items of its body are its children.
fn parse_js_class_item(
    tree: &SyntaxTree,
    docs: &JsDocs,
    render: usize,
    definition: usize,
    flavor: JsFlavor,
    name_override: Option<Vec<char>>,
) -> (r: AstItem)
    requires
        tree.wf(),
        tree.valid_node(render),
        tree.valid_node(definition),
        docs.wf(tree),
    ensures
        r.kind == AstItemKind::Class,
        opt_seq(r.name) == Some(js_item_name(*tree, definition, name_override)),
        r.summary@ == class_summary(*tree, js_item_name(*tree, definition, name_override), definition),
        heads(r.children@) == match tree.field_child(definition, "body"@) {
            Some(b) => js_body_heads(*tree, b, flavor == JsFlavor::TypeScript),
            None => Seq::empty(),
        },
    decreases tree.nodes@.len() - definition, 1int,
{
    let owned_start = js_declaration_start_node(tree, render);
    let name = match name_override {
        Some(name) => name,
        None => name_or_anonymous(child_text_by_field(tree, definition, "name")),
    };
    let body = tree.child_by_field(definition, "body");
    let item_parts = parts(
        AstItemKind::Class,
        name.clone(),
        location_for_js_node(tree, owned_start, render),
        leading_item_docs(tree, docs, owned_start),
        summarize_js_class(tree, &name, definition),
        js_signature_text_with_body(tree, owned_start, render, body),
        Some(js_owned_node_text(tree, owned_start, render)),
    );
    let children = match body {
        Some(b) => collect_js_like_supported_items(tree, docs, b, flavor),
        None => Vec::new(),
    };
    make_item(item_parts, children)
}

/// A TypeScript interface; the items of its body are its children.
fn parse_js_interface_item(
    tree: &SyntaxTree,
    docs: &JsDocs,
    render: usize,
    definition: usize,
    flavor: JsFlavor,
) -> (r: AstItem)
    requires
        tree.wf(),
        tree.valid_node(render),
        tree.valid_node(definition),
        docs.wf(tree),
    ensures
        r.kind == AstItemKind::Interface,
        opt_seq(r.name) == Some(js_name_text(*tree, definition)),
        r.summary@ == "interface "@ + js_name_text(*tree, definition),
        heads(r.children@) == match tree.field_child(definition, "body"@) {
            Some(b) => js_body_heads(*tree, b, flavor == JsFlavor::TypeScript),
            None => Seq::empty(),
        },
    decreases tree.nodes@.len() - definition, 1int,
{
    let name = name_or_anonymous(child_text_by_field(tree, definition, "name"));
    let body = tree.child_by_field(definition, "body");
    let item_parts = parts(
        AstItemKind::Interface,
        name.clone(),
        location_for_node(tree, render),
        leading_item_docs(tree, docs, render),
        prefixed("interface ", &name),
        signature_text_with_body(tree, render, body),
        Some(tree.trimmed_node_text(render)),
    );
    let children = match body {
        Some(b) => collect_js_like_supported_items(tree, docs, b, flavor),
        None => Vec::new(),
    };
    make_item(item_parts, children)
}

fn parse_js_module_item(
    tree: &SyntaxTree,
    docs: &JsDocs,
    render: usize,
    definition: usize,
    flavor: JsFlavor,
) -> (r: AstItem)
    requires
        tree.wf(),
        tree.valid_node(render),
        tree.valid_node(definition),
        docs.wf(tree),
    ensures
        r.kind == AstItemKind::Module,
        opt_seq(r.name) == Some(module_item_name(*tree, definition)),
        r.summary@ == module_keyword(*tree, definition) + seq![' '] + module_item_name(*tree, definition),
        heads(r.children@) == match tree.field_child(definition, "body"@) {
            Some(b) => js_body_heads(*tree, b, flavor == JsFlavor::TypeScript),
            None => Seq::empty(),
        },
    decreases tree.nodes@.len() - definition, 2int,
{
    let body = tree.child_by_field(definition, "body");
    parse_js_module_item_with(tree, docs, render, definition, body, flavor, None, None)
}

/// A TypeScript module or namespace; the items of its body are its children.
fn parse_js_module_item_with(
    tree: &SyntaxTree,
    docs: &JsDocs,
    render: usize,
    definition: usize,
    body: Option<usize>,
    flavor: JsFlavor,
    name_override: Option<Vec<char>>,
    keyword_override: Option<&str>,
) -> (r: AstItem)
    requires
        tree.wf(),
        tree.valid_node(render),
        tree.valid_node(definition),
        body matches Some(b) ==> definition < b < tree.nodes@.len(),
        docs.wf(tree),
    ensures
        r.kind == AstItemKind::Module,
        opt_seq(r.name) == Some(
            match name_override {
                Some(o) => o@,
                None => module_item_name(*tree, definition),
            },
        ),
        r.summary@ == match keyword_override {
            Some(k) => k@,
            None => module_keyword(*tree, definition),
        } + seq![' '] + match name_override {
            Some(o) => o@,
            None => module_item_name(*tree, definition),
        },
        heads(r.children@) == match body {
            Some(b) => js_body_heads(*tree, b, flavor == JsFlavor::TypeScript),
            None => Seq::empty(),
        },
    decreases tree.nodes@.len() - definition, 1int,
{
    let name = match name_override {
        Some(name) => name,
        None => match tree.child_by_field(definition, "name") {
            Some(n) => js_module_name(tree, n),
            None => chars_of("<anonymous>"),
        },
    };
    let keyword: &str = match keyword_override {
        Some(k) => k,
        None => if tree.kind_is(definition, "internal_module") {
            "namespace"
        } else {
            "module"
        },
    };
    let item_parts = parts(
        AstItemKind::Module,
        name.clone(),
        location_for_node(tree, render),
        leading_item_docs(tree, docs, render),
        keyword_name(&chars_of(keyword), &name),
        signature_text_with_body(tree, render, body),
        Some(tree.trimmed_node_text(render)),
    );
    let children = match body {
        Some(b) => collect_js_like_supported_items(tree, docs, b, flavor),
        None => Vec::new(),
    };
    make_item(item_parts, children)
}

/// An enum or type alias: `keyword name`.
fn parse_js_simple_item(
    tree: &SyntaxTree,
    docs: &JsDocs,
    kind: AstItemKind,
    keyword: &str,
    render: usize,
    definition: usize,
) -> (r: AstItem)
    requires
        tree.wf(),
        tree.valid_node(render),
        tree.valid_node(definition),
        docs.wf(tree),
    ensures
        r.kind == kind,
        opt_seq(r.name) == Some(js_name_text(*tree, definition)),
        r.summary@ == keyword@ + seq![' '] + js_name_text(*tree, definition),
{
    let name = name_or_anonymous(child_text_by_field(tree, definition, "name"));
    let body = tree.child_by_field(definition, "body");
    let item_parts = parts(
        kind,
        name.clone(),
        location_for_node(tree, render),
        leading_item_docs(tree, docs, render),
        keyword_name(&chars_of(keyword), &name),
        signature_text_with_body(tree, render, body),
        Some(tree.trimmed_node_text(render)),
    );
    make_item(item_parts, Vec::new())
}

/// The outline of a parsed JavaScript, TypeScript or TSX file.
pub fn js_like_file_ast(tree: &SyntaxTree, language: AstLanguage, flavor: JsFlavor) -> (r: FileAst)
    requires
        tree.wf(),
    ensures
        r.language == language,
        r.has_errors == tree.nodes@[0].has_error,
        r.first_error == crate::outline::first_error_spec(*tree),
        heads(r.items@) == js_body_heads(*tree, 0, flavor == JsFlavor::TypeScript),
{
    let docs = js_docs(tree);
    let collected = collect_js_like_supported_items(tree, &docs, 0, flavor);
    let ghost raw = collected@;
    let items = mark_overlapping_sibling_locations(collected);
    proof {
        assert forall|k: int| 0 <= k < raw.len() implies #[trigger] items@[k].kind == raw[k].kind
            && items@[k].name == raw[k].name && items@[k].summary == raw[k].summary by {
            crate::outline::lemma_siblings_marked_item(raw, items@, k);
        }
    }
    assert(heads(items@) =~= heads(raw));
    FileAst {
        language,
        root_docs: opt_string(root_module_docs(tree, &docs)),
        items,
        has_errors: tree.nodes[0].has_error,
        first_error: first_syntax_error(tree),
    }
}

} // verus!
