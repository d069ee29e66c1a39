//! Outlines of Go source files.
use vstd::prelude::*;

use crate::outline::{
    span_owns_lines, texts_view, first_syntax_error, location_from_span, mark_overlapping_sibling_locations, AstItem,
    AstItemKind, AstLanguage, AstLocationRange, AstSyntaxErrorLocation, FileAst,
};
use crate::outline_common::{
    child_text_by_field, heads, item_head, make_item, name_or_anonymous,
    node_text_spec, opt_chars_view, opt_string, prefixed, signature_text, ItemParts,
};
use crate::outline_js::{
    collect_comment_ranges, comment_ranges_upto, leading_comment_span, lemma_node_in_source,
    ranges_within, trimmed_between,
};
use crate::outline_rust::{joined_lines, white_space_end};
use crate::syntax::SyntaxTree;
use crate::text::{chars_of, push_all, push_str, starts_with, starts_with_str};

verus! {

/// The comments right before a Go item: where they start, their text, and the compiler
/// directives (`//go:` and `//line` lines) among them.
struct GoItemPreamble {
    start: usize,
    text: Vec<char>,
    directives: Option<Vec<char>>,
}

/// The comments of a file and those that document its package.
struct GoDocs {
    comments: Vec<(usize, usize)>,
    root_comments: Vec<(usize, usize)>,
}

impl GoDocs {
    spec fn wf(&self, tree: &SyntaxTree) -> bool {
        &&& ranges_within(self.comments@, tree.source@.len() as int)
        &&& ranges_within(self.root_comments@, tree.source@.len() as int)
    }
}

/// The comments that document a Go package: those that end before its `package` clause; none
/// without one.
pub open spec fn go_root_comments_spec(tree: SyntaxTree, comments: Seq<(usize, usize)>) -> Seq<
    (usize, usize),
> {
    match named_child_of_kind_from(tree, 0, "package_clause"@, 0) {
        Some(p) => comments.filter(|c: (usize, usize)| c.1 <= tree.nodes@[p as int].start),
        None => Seq::empty(),
    }
}

/// The comments of a file; those that end before its `package` clause document the package.
fn go_docs(tree: &SyntaxTree) -> (d: GoDocs)
    requires
        tree.wf(),
    ensures
        d.wf(tree),
        d.comments@ == comment_ranges_upto(*tree, tree.nodes@.len() as int),
        d.root_comments@ == go_root_comments_spec(*tree, d.comments@),
{
    let comments = collect_comment_ranges(tree);
    let children = tree.named_children(0);
    let mut package_start: Option<usize> = None;
    let mut k: usize = 0;
    while k < children.len()
        invariant_except_break
            package_start is None,
        invariant
            tree.wf(),
            k <= children@.len(),
            children@ == tree.named_children_spec(0),
            named_child_of_kind_from(*tree, 0, "package_clause"@, k as int)
                == named_child_of_kind_from(*tree, 0, "package_clause"@, 0),
            forall|j: int| 0 <= j < children@.len() ==> 0 < #[trigger] children@[j] < tree.nodes@.len(),
        ensures
            match named_child_of_kind_from(*tree, 0, "package_clause"@, 0) {
                Some(p) => package_start == Some(tree.nodes@[p as int].start),
                None => package_start is None,
            },
        decreases children.len() - k,
    {
        if tree.kind_is(children[k], "package_clause") {
            package_start = Some(tree.nodes[children[k]].start);
            break ;
        }
        k = k + 1;
    }
    let mut root_comments: Vec<(usize, usize)> = Vec::new();
    match package_start {
        Some(p) => {
            let ghost pred = |c: (usize, usize)| c.1 <= p;
            let mut j: usize = 0;
            while j < comments.len()
                invariant
                    j <= comments@.len(),
                    ranges_within(comments@, tree.source@.len() as int),
                    ranges_within(root_comments@, tree.source@.len() as int),
                    pred == (|c: (usize, usize)| c.1 <= p),
                    root_comments@ == comments@.subrange(0, j as int).filter(pred),
                decreases comments.len() - j,
            {
                proof {
                    assert(comments@.subrange(0, j + 1).drop_last() =~= comments@.subrange(0, j as int));
                    reveal_with_fuel(Seq::filter, 1);
                }
                if comments[j].1 <= p {
                    let ghost before = root_comments@;
                    root_comments.push(comments[j]);
                    proof {
                        assert(comments@[j as int].0 <= comments@[j as int].1);
                        assert forall|i: int| 0 <= i < root_comments@.len() implies #[trigger] root_comments@[i].0
                            <= root_comments@[i].1 && root_comments@[i].1 <= tree.source@.len() by {
                            if i < before.len() {
                                assert(root_comments@[i] == before[i]);
                            }
                        }
                    }
                }
                j = j + 1;
            }
            proof {
                assert(comments@.subrange(0, comments@.len() as int) =~= comments@);
                let p2 = named_child_of_kind_from(*tree, 0, "package_clause"@, 0)->0;
                assert(pred == (|c: (usize, usize)| c.1 <= tree.nodes@[p2 as int].start));
            }
        },
        None => {},
    }
    GoDocs { comments, root_comments }
}

fn root_module_docs(tree: &SyntaxTree, docs: &GoDocs) -> (r: Option<Vec<char>>)
    requires
        tree.wf(),
        docs.wf(tree),
    ensures
        opt_chars_view(r) == crate::outline_js::root_docs_spec(*tree, docs.root_comments@),
{
    let n = docs.root_comments.len();
    if n == 0 {
        return None;
    }
    assert(docs.root_comments@[0].0 <= docs.root_comments@[0].1);
    assert(docs.root_comments@[n - 1].0 <= docs.root_comments@[n - 1].1);
    Some(trimmed_between(tree, docs.root_comments[0].0, docs.root_comments[n - 1].1))
}

/// Whether a line is a compiler directive: after white space, `//go:` or `//line `.
pub open spec fn is_directive_line(line: Seq<char>) -> bool {
    let rest = line.subrange(white_space_end(line, 0), line.len() as int);
    starts_with(rest, "//go:"@) || starts_with(rest, "//line "@)
}

/// The directive lines among `lines`, in order.
pub open spec fn directive_lines(lines: Seq<Seq<char>>) -> Seq<Seq<char>>
    decreases lines.len(),
{
    if lines.len() == 0 {
        Seq::empty()
    } else {
        let before = directive_lines(lines.drop_last());
        if is_directive_line(lines.last()) {
            before.push(lines.last())
        } else {
            before
        }
    }
}

/// The directive lines of a text joined with line breaks, or nothing when it has none.
pub open spec fn go_directives_spec(text: Seq<char>) -> Option<Seq<char>> {
    joined_lines(directive_lines(crate::outline::text_lines_spec(text)))
}

proof fn lemma_white_space_end_bounds(s: Seq<char>, i: int)
    requires
        0 <= i <= s.len(),
    ensures
        i <= white_space_end(s, i) <= s.len(),
    decreases s.len() - i,
{
    if i < s.len() && crate::text::is_white_space(s[i]) {
        lemma_white_space_end_bounds(s, i + 1);
    }
}

/// The lines of a text that are compiler directives, joined with line breaks.
fn go_directives(text: &[char]) -> (r: Option<Vec<char>>)
    ensures
        opt_chars_view(r) == go_directives_spec(text@),
{
    let lines = crate::outline::text_lines(text);
    let ghost ls = texts_view(lines@);
    let mut out: Vec<char> = Vec::new();
    let mut any = false;
    let mut k: usize = 0;
    while k < lines.len()
        invariant
            k <= lines@.len(),
            ls == texts_view(lines@),
            ls == crate::outline::text_lines_spec(text@),
            any == (directive_lines(ls.subrange(0, k as int)).len() > 0),
            any ==> out@ == crate::outline::joined(directive_lines(ls.subrange(0, k as int)), '\n'),
            !any ==> out@.len() == 0,
        decreases lines.len() - k,
    {
        let line = &lines[k];
        proof {
            assert(ls.subrange(0, k + 1).drop_last() =~= ls.subrange(0, k as int));
            assert(ls.subrange(0, k + 1).last() == line@);
        }
        let mut i: usize = 0;
        while i < line.len() && crate::text::char_is_white_space(line[i])
            invariant
                i <= line@.len(),
                white_space_end(line@, i as int) == white_space_end(line@, 0),
            decreases line.len() - i,
        {
            i = i + 1;
        }
        let rest = crate::text::copy_range(line, i, line.len());
        let ghost before = directive_lines(ls.subrange(0, k as int));
        if starts_with_str(&rest, "//go:") || starts_with_str(&rest, "//line ") {
            if any {
                out.push('\n');
            }
            push_all(&mut out, line);
            proof {
                let next = before.push(line@);
                assert(next.drop_last() =~= before);
                if before.len() == 0 {
                    assert(out@ =~= line@);
                }
            }
            any = true;
        }
        k = k + 1;
    }
    assert(ls.subrange(0, ls.len() as int) =~= ls);
    if any {
        Some(out)
    } else {
        None
    }
}

fn leading_item_preamble(tree: &SyntaxTree, docs: &GoDocs, n: usize) -> (r: Option<GoItemPreamble>)
    requires
        tree.wf(),
        tree.valid_node(n),
        docs.wf(tree),
    ensures
        r matches Some(p) ==> p.start <= tree.source@.len(),
        match crate::outline_js::leading_comment_span_spec(*tree, docs.comments@, n) {
            Some(sp) => r matches Some(p) && p.start == sp.0 && p.text@
                == crate::outline_js::trimmed_between_spec(*tree, sp.0 as int, sp.1 as int)
                && opt_chars_view(p.directives) == go_directives_spec(p.text@),
            None => r is None,
        },
{
    match leading_comment_span(tree, &docs.comments, n) {
        Some((a, b)) => {
            let text = trimmed_between(tree, a, b);
            let directives = go_directives(&text);
            Some(GoItemPreamble { start: a, text, directives })
        },
        None => None,
    }
}

fn copy_preamble(p: &GoItemPreamble) -> (r: GoItemPreamble)
    ensures
        r.start == p.start,
{
    GoItemPreamble {
        start: p.start,
        text: p.text.clone(),
        directives: match &p.directives {
            Some(d) => Some(d.clone()),
            None => None,
        },
    }
}

/// A group's comments followed by an item's own: the item's start, both texts, and both
/// directive lists.
fn merge_go_preambles(context: Option<&GoItemPreamble>, owned: Option<&GoItemPreamble>) -> (r: Option<
    GoItemPreamble,
>)
    ensures
        r matches Some(p) ==> ((owned matches Some(o) && p.start == o.start) || (owned is None
            && (context matches Some(c) && p.start == c.start))),
        r is None <==> (context is None && owned is None),
{
    match (context, owned) {
        (Some(c), Some(o)) => {
            let mut directives: Vec<char> = Vec::new();
            let mut any = false;
            match &c.directives {
                Some(d) => {
                    push_all(&mut directives, d);
                    any = true;
                },
                None => {},
            }
            match &o.directives {
                Some(d) => {
                    if any {
                        directives.push('\n');
                    }
                    push_all(&mut directives, d);
                    any = true;
                },
                None => {},
            }
            let mut text: Vec<char> = Vec::new();
            push_all(&mut text, &c.text);
            text.push('\n');
            push_all(&mut text, &o.text);
            Some(
                GoItemPreamble {
                    start: o.start,
                    text,
                    directives: if any {
                        Some(directives)
                    } else {
                        None
                    },
                },
            )
        },
        (Some(c), None) => Some(copy_preamble(c)),
        (None, Some(o)) => Some(copy_preamble(o)),
        (None, None) => None,
    }
}

/// The number of line breaks before offset `i`.
pub open spec fn row_of(s: Seq<char>, i: int) -> int
    decreases i,
{
    if i <= 0 {
        0
    } else {
        row_of(s, i - 1) + if s[i - 1] == '\n' {
            1int
        } else {
            0int
        }
    }
}

/// The UTF-8 byte column of offset `i` on its line, at most `usize::MAX`.
pub open spec fn column_of(s: Seq<char>, i: int) -> int
    decreases i,
{
    if i <= 0 {
        0
    } else if s[i - 1] == '\n' {
        0
    } else {
        let c = column_of(s, i - 1) + crate::syntax::utf8_width(s[i - 1]);
        if c <= usize::MAX {
            c
        } else {
            usize::MAX as int
        }
    }
}

/// The row and byte column of a character offset.
fn point_for_offset(tree: &SyntaxTree, offset: usize) -> (r: (usize, usize))
    requires
        offset <= tree.source@.len(),
    ensures
        r.0 == row_of(tree.source@, offset as int),
        r.1 == column_of(tree.source@, offset as int),
{
    let mut row: usize = 0;
    let mut column: usize = 0;
    let mut i: usize = 0;
    while i < offset
        invariant
            i <= offset <= tree.source@.len(),
            row <= i,
            row == row_of(tree.source@, i as int),
            column == column_of(tree.source@, i as int),
        decreases offset - i,
    {
        if tree.source[i] == '\n' {
            row = row + 1;
            column = 0;
        } else {
            let c = tree.source[i] as u32;
            let w: usize = if c < 0x80 {
                1
            } else if c < 0x800 {
                2
            } else if c < 0x10000 {
                3
            } else {
                4
            };
            column = if column <= usize::MAX - w {
                column + w
            } else {
                usize::MAX
            };
        }
        i = i + 1;
    }
    (row, column)
}

/// The start of a Go item: where its comments start, or else where its node starts.
spec fn go_item_start(tree: SyntaxTree, n: usize, preamble: Option<GoItemPreamble>) -> int {
    match preamble {
        Some(p) => p.start as int,
        None => tree.nodes@[n as int].start as int,
    }
}

/// The location of a Go item: from its comments (if any) to the end of its node.
fn location_for_go_node(tree: &SyntaxTree, n: usize, preamble: &Option<GoItemPreamble>) -> (l: AstLocationRange)
    requires
        tree.wf(),
        tree.valid_node(n),
        preamble matches Some(p) ==> p.start <= tree.source@.len(),
    ensures
        l.start_line == row_of(tree.source@, go_item_start(*tree, n, *preamble)),
        l.end_line == tree.nodes@[n as int].end_row + if tree.nodes@[n as int].end_column > 0 {
            1int
        } else {
            0int
        } || (tree.nodes@[n as int].end_row == usize::MAX && l.end_line == tree.nodes@[n as int].end_row),
        l.is_edit_ready == span_owns_lines(
            tree.source@,
            go_item_start(*tree, n, *preamble),
            tree.nodes@[n as int].end as int,
            tree.nodes@[n as int].end_column as int,
        ),
{
    proof {
        lemma_node_in_source(tree, n);
    }
    let node = &tree.nodes[n];
    let start = match preamble {
        Some(p) => p.start,
        None => node.start,
    };
    let (start_row, _) = point_for_offset(tree, start);
    location_from_span(&tree.source, start_row, node.end_row, node.end_column, start, node.end)
}

fn preamble_text(p: &Option<GoItemPreamble>) -> (r: Option<Vec<char>>)
    ensures
        opt_chars_view(r) == match p {
            Some(q) => Some(q.text@),
            None => None,
        },
{
    match p {
        Some(p) => Some(p.text.clone()),
        None => None,
    }
}

fn preamble_directives(p: &Option<GoItemPreamble>) -> (r: Option<Vec<char>>)
    ensures
        opt_chars_view(r) == match p {
            Some(q) => opt_chars_view(q.directives),
            None => None,
        },
{
    match p {
        Some(p) => match &p.directives {
            Some(d) => Some(d.clone()),
            None => None,
        },
        None => None,
    }
}

/// An item's parts with the docs, directives and preamble text of its comments.
fn go_parts(
    kind: AstItemKind,
    name: Vec<char>,
    associated_type: Option<Vec<char>>,
    location: AstLocationRange,
    preamble: &Option<GoItemPreamble>,
    summary: Vec<char>,
    signature: Vec<char>,
    body: Vec<char>,
) -> (p: ItemParts)
    ensures
        p.kind == kind,
        p.location == location,
        p.summary == summary,
        p.name == Some(name),
{
    ItemParts {
        kind,
        name: Some(name),
        associated_type,
        location,
        docs: preamble_text(preamble),
        inner_docs: None,
        attributes: preamble_directives(preamble),
        source_preamble: preamble_text(preamble),
        summary,
        signature: Some(signature),
        body: Some(body),
    }
}

// ---------------------------------------------------------------------------------------------
// Source shape
// ---------------------------------------------------------------------------------------------
/// Whether a node of kind `kind` may stand at the top level of a Go file after its package
/// clause.
pub open spec fn is_go_top_level_kind(kind: Seq<char>) -> bool {
    kind == "import_declaration"@ || kind == "const_declaration"@ || kind == "var_declaration"@
        || kind == "type_declaration"@ || kind == "function_declaration"@ || kind
        == "method_declaration"@
}

fn is_go_top_level_declaration(tree: &SyntaxTree, n: usize) -> (r: bool)
    requires
        tree.wf(),
        tree.valid_node(n),
    ensures
        r == is_go_top_level_kind(tree.kind_of(n)),
{
    tree.kind_is(n, "import_declaration") || tree.kind_is(n, "const_declaration")
        || tree.kind_is(n, "var_declaration") || tree.kind_is(n, "type_declaration")
        || tree.kind_is(n, "function_declaration") || tree.kind_is(n, "method_declaration")
}

/// Whether a node is not a comment.
pub open spec fn not_comment(tree: SyntaxTree, c: usize) -> bool {
    tree.kind_of(c) != "comment"@
}

/// The named top-level children of a file that are not comments.
pub open spec fn go_top_level_nodes(tree: SyntaxTree) -> Seq<usize> {
    tree.named_children_spec(0).filter(|c: usize| not_comment(tree, c))
}

/// The start of node `n` as an error location.
pub open spec fn node_error_at(tree: SyntaxTree, n: usize, is_missing: bool) -> AstSyntaxErrorLocation {
    AstSyntaxErrorLocation {
        line: tree.nodes@[n as int].start_row,
        column: tree.nodes@[n as int].start_column,
        is_missing,
    }
}

/// The first of the top-level nodes from position `k` on that is another package clause or
/// not a declaration.
pub open spec fn go_misplaced_from(tree: SyntaxTree, nodes: Seq<usize>, k: int) -> Option<
    AstSyntaxErrorLocation,
>
    decreases nodes.len() - k,
{
    if k < 0 || k >= nodes.len() {
        None
    } else if tree.kind_of(nodes[k]) == "package_clause"@ || !is_go_top_level_kind(
        tree.kind_of(nodes[k]),
    ) {
        Some(node_error_at(tree, nodes[k], false))
    } else {
        go_misplaced_from(tree, nodes, k + 1)
    }
}

/// Where a Go file breaks its shape: a missing package clause at the end of an empty file or
/// at its first node, or the first node after the package clause that is not a declaration.
pub open spec fn go_shape_error_spec(tree: SyntaxTree) -> Option<AstSyntaxErrorLocation> {
    let nodes = go_top_level_nodes(tree);
    if nodes.len() == 0 {
        Some(
            AstSyntaxErrorLocation {
                line: row_of(tree.source@, tree.source@.len() as int) as usize,
                column: column_of(tree.source@, tree.source@.len() as int) as usize,
                is_missing: true,
            },
        )
    } else if tree.kind_of(nodes[0]) != "package_clause"@ {
        Some(node_error_at(tree, nodes[0], true))
    } else {
        go_misplaced_from(tree, nodes, 1)
    }
}

/// A file must start with its `package` clause (comments aside) and hold only declarations
/// after it; the first place where it does not is an error.
fn first_go_source_shape_error(tree: &SyntaxTree) -> (r: Option<AstSyntaxErrorLocation>)
    requires
        tree.wf(),
    ensures
        r == go_shape_error_spec(*tree),
{
    let children = tree.named_children(0);
    let ghost pred = |c: usize| not_comment(*tree, c);
    let mut syntax: Vec<usize> = Vec::new();
    let mut k: usize = 0;
    while k < children.len()
        invariant
            tree.wf(),
            children@ == tree.named_children_spec(0),
            k <= children@.len(),
            pred == (|c: usize| not_comment(*tree, c)),
            syntax@ == children@.subrange(0, k as int).filter(pred),
            forall|j: int| 0 <= j < children@.len() ==> 0 < #[trigger] children@[j] < tree.nodes@.len(),
            forall|j: int| 0 <= j < syntax@.len() ==> 0 < #[trigger] syntax@[j] < tree.nodes@.len(),
        decreases children.len() - k,
    {
        proof {
            let s = children@.subrange(0, k + 1);
            assert(s.drop_last() =~= children@.subrange(0, k as int));
            reveal_with_fuel(Seq::filter, 1);
        }
        if !tree.kind_is(children[k], "comment") {
            syntax.push(children[k]);
        }
        k = k + 1;
    }
    assert(children@.subrange(0, children@.len() as int) =~= children@);
    assert(syntax@ == go_top_level_nodes(*tree));
    if syntax.len() == 0 {
        let (line, column) = point_for_offset(tree, tree.source.len());
        return Some(AstSyntaxErrorLocation { line, column, is_missing: true });
    }
    let first = syntax[0];
    if !tree.kind_is(first, "package_clause") {
        let node = &tree.nodes[first];
        return Some(
            AstSyntaxErrorLocation { line: node.start_row, column: node.start_column, is_missing: true },
        );
    }
    let mut k: usize = 1;
    while k < syntax.len()
        invariant
            tree.wf(),
            1 <= k,
            syntax@ == go_top_level_nodes(*tree),
            syntax@.len() > 0,
            tree.kind_of(syntax@[0]) == "package_clause"@,
            forall|j: int| 0 <= j < syntax@.len() ==> 0 < #[trigger] syntax@[j] < tree.nodes@.len(),
            go_shape_error_spec(*tree) == go_misplaced_from(*tree, syntax@, k as int),
        decreases syntax.len() - k,
    {
        let child = syntax[k];
        if tree.kind_is(child, "package_clause") || !is_go_top_level_declaration(tree, child) {
            let node = &tree.nodes[child];
            return Some(
                AstSyntaxErrorLocation {
                    line: node.start_row,
                    column: node.start_column,
                    is_missing: false,
                },
            );
        }
        k = k + 1;
    }
    None
}

/// The earlier of two error locations, by line and then column.
pub open spec fn earliest_error(first: Option<AstSyntaxErrorLocation>, second: Option<AstSyntaxErrorLocation>) -> Option<
    AstSyntaxErrorLocation,
> {
    match (first, second) {
        (Some(a), Some(b)) => if a.line < b.line || (a.line == b.line && a.column <= b.column) {
            Some(a)
        } else {
            Some(b)
        },
        (Some(a), None) => Some(a),
        (None, Some(b)) => Some(b),
        (None, None) => None,
    }
}

/// The earlier of two error locations, by line and then column.
fn earliest_syntax_error(first: Option<AstSyntaxErrorLocation>, second: Option<AstSyntaxErrorLocation>) -> (r: Option<
    AstSyntaxErrorLocation,
>)
    ensures
        r == earliest_error(first, second),
{
    match (first, second) {
        (Some(a), Some(b)) => if a.line < b.line || (a.line == b.line && a.column <= b.column) {
            Some(a)
        } else {
            Some(b)
        },
        (Some(a), None) => Some(a),
        (None, Some(b)) => Some(b),
        (None, None) => None,
    }
}

// ---------------------------------------------------------------------------------------------
// Declarations
// ---------------------------------------------------------------------------------------------
/// Whether a declaration lists its specs in parentheses: some child is `(` or a spec list.
pub open spec fn go_grouped_spec(tree: SyntaxTree, n: usize) -> bool {
    exists|k: int|
        0 <= k < tree.nodes@[n as int].children@.len() && (tree.kind_of(
            #[trigger] tree.nodes@[n as int].children@[k],
        ) == "("@ || tree.kind_of(tree.nodes@[n as int].children@[k]) == "var_spec_list"@)
}

/// Whether a declaration lists its specs in parentheses.
fn go_declaration_is_grouped(tree: &SyntaxTree, n: usize) -> (r: bool)
    requires
        tree.wf(),
        tree.valid_node(n),
    ensures
        r == go_grouped_spec(*tree, n),
{
    let children = tree.children_of(n);
    let mut k: usize = 0;
    while k < children.len()
        invariant
            tree.wf(),
            k <= children@.len(),
            children@ == tree.nodes@[n as int].children@,
            forall|j: int| 0 <= j < children@.len() ==> n < #[trigger] children@[j] < tree.nodes@.len(),
            forall|j: int|
                0 <= j < k ==> !(tree.kind_of(#[trigger] children@[j]) == "("@ || tree.kind_of(
                    children@[j],
                ) == "var_spec_list"@),
        decreases children.len() - k,
    {
        if tree.kind_is(children[k], "(") || tree.kind_is(children[k], "var_spec_list") {
            return true;
        }
        k = k + 1;
    }
    false
}

/// The specs of kind `expected` among the named children `cs` of a declaration, in order, also
/// those inside a `var_spec_list`.
pub open spec fn declaration_specs_of(tree: SyntaxTree, cs: Seq<usize>, expected: Seq<char>) -> Seq<
    usize,
>
    decreases cs.len(),
{
    if cs.len() == 0 {
        Seq::empty()
    } else {
        let before = declaration_specs_of(tree, cs.drop_last(), expected);
        let c = cs.last();
        if tree.kind_of(c) == expected {
            before.push(c)
        } else if tree.kind_of(c) == "var_spec_list"@ {
            before + tree.named_children_spec(c).filter(|x: usize| tree.kind_of(x) == expected)
        } else {
            before
        }
    }
}

/// The `const_spec` (or `var_spec`) nodes of declaration `n`.
pub open spec fn go_declaration_specs_spec(tree: SyntaxTree, n: usize, is_const: bool) -> Seq<usize> {
    declaration_specs_of(
        tree,
        tree.named_children_spec(n),
        if is_const {
            "const_spec"@
        } else {
            "var_spec"@
        },
    )
}

/// The `const_spec` or `var_spec` nodes of a declaration, also inside a spec list.
fn go_declaration_specs(tree: &SyntaxTree, n: usize, is_const: bool) -> (r: Vec<usize>)
    requires
        tree.wf(),
        tree.valid_node(n),
    ensures
        forall|j: int| 0 <= j < r@.len() ==> n < #[trigger] r@[j] < tree.nodes@.len(),
        r@ == go_declaration_specs_spec(*tree, n, is_const),
{
    let expected: &str = if is_const {
        "const_spec"
    } else {
        "var_spec"
    };
    let children = tree.named_children(n);
    let mut specs: Vec<usize> = Vec::new();
    let mut k: usize = 0;
    assert(children@.subrange(0, 0) =~= Seq::<usize>::empty());
    while k < children.len()
        invariant
            tree.wf(),
            k <= children@.len(),
            children@ == tree.named_children_spec(n),
            forall|j: int| 0 <= j < children@.len() ==> n < #[trigger] children@[j] < tree.nodes@.len(),
            forall|j: int| 0 <= j < specs@.len() ==> n < #[trigger] specs@[j] < tree.nodes@.len(),
            specs@ == declaration_specs_of(*tree, children@.subrange(0, k as int), expected@),
        decreases children.len() - k,
    {
        let child = children[k];
        proof {
            assert(children@.subrange(0, k + 1).drop_last() =~= children@.subrange(0, k as int));
        }
        if tree.kind_is(child, expected) {
            specs.push(child);
        } else if tree.kind_is(child, "var_spec_list") {
            let inner = tree.named_children(child);
            let ghost base = specs@;
            let ghost pred = |x: usize| tree.kind_of(x) == expected@;
            let mut j: usize = 0;
            assert(inner@.subrange(0, 0) =~= Seq::<usize>::empty());
            assert(base + Seq::<usize>::empty() =~= base);
            while j < inner.len()
                invariant
                    tree.wf(),
                    n < child < tree.nodes@.len(),
                    j <= inner@.len(),
                    inner@ == tree.named_children_spec(child),
                    pred == (|x: usize| tree.kind_of(x) == expected@),
                    specs@ == base + inner@.subrange(0, j as int).filter(pred),
                    forall|i: int| 0 <= i < inner@.len() ==> child < #[trigger] inner@[i] < tree.nodes@.len(),
                    forall|i: int| 0 <= i < specs@.len() ==> n < #[trigger] specs@[i] < tree.nodes@.len(),
                decreases inner.len() - j,
            {
                proof {
                    assert(inner@.subrange(0, j + 1).drop_last() =~= inner@.subrange(0, j as int));
                    reveal_with_fuel(Seq::filter, 1);
                }
                if tree.kind_is(inner[j], expected) {
                    specs.push(inner[j]);
                }
                j = j + 1;
            }
            assert(inner@.subrange(0, inner@.len() as int) =~= inner@);
        }
        k = k + 1;
    }
    assert(children@.subrange(0, children@.len() as int) =~= children@);
    specs
}

/// The names that the children `cs` of a spec declare: those under the field `name` that are
/// identifiers or type identifiers.
pub open spec fn spec_names_of(tree: SyntaxTree, cs: Seq<usize>) -> Seq<Seq<char>>
    decreases cs.len(),
{
    if cs.len() == 0 {
        Seq::empty()
    } else {
        let before = spec_names_of(tree, cs.drop_last());
        let c = cs.last();
        if tree.field_is(c, "name"@) && (tree.kind_of(c) == "identifier"@ || tree.kind_of(c)
            == "type_identifier"@) {
            before.push(node_text_spec(tree, c))
        } else {
            before
        }
    }
}

/// The names that a spec declares.
fn go_spec_names(tree: &SyntaxTree, n: usize) -> (r: Vec<Vec<char>>)
    requires
        tree.wf(),
        tree.valid_node(n),
    ensures
        texts_view(r@) == spec_names_of(*tree, tree.nodes@[n as int].children@),
{
    let children = tree.children_of(n);
    let mut names: Vec<Vec<char>> = Vec::new();
    let mut k: usize = 0;
    assert(texts_view(names@) =~= spec_names_of(*tree, children@.subrange(0, 0)));
    while k < children.len()
        invariant
            tree.wf(),
            k <= children@.len(),
            children@ == tree.nodes@[n as int].children@,
            forall|j: int| 0 <= j < children@.len() ==> n < #[trigger] children@[j] < tree.nodes@.len(),
            texts_view(names@) == spec_names_of(*tree, children@.subrange(0, k as int)),
        decreases children.len() - k,
    {
        let child = children[k];
        let ghost before = texts_view(names@);
        proof {
            assert(children@.subrange(0, k + 1).drop_last() =~= children@.subrange(0, k as int));
        }
        let is_name = match &tree.nodes[child].field {
            Some(f) => crate::text::chars_eq_str(f, "name"),
            None => false,
        };
        if is_name && (tree.kind_is(child, "identifier") || tree.kind_is(child, "type_identifier")) {
            let text = tree.trimmed_node_text(child);
            names.push(text);
            assert(texts_view(names@) =~= before.push(node_text_spec(*tree, child)));
        }
        k = k + 1;
    }
    assert(children@.subrange(0, children@.len() as int) =~= children@);
    names
}

/// The heads of the items that `names` declare: `keyword name` each, of kind `kind`.
pub open spec fn named_heads(kind: AstItemKind, keyword: Seq<char>, names: Seq<Seq<char>>) -> Seq<
    (AstItemKind, Option<Seq<char>>, Seq<char>),
> {
    names.map_values(|name: Seq<char>| (kind, Some(name), keyword + seq![' '] + name))
}

/// The heads of the items of value specs `specs`: one per declared name.
pub open spec fn value_heads(tree: SyntaxTree, kind: AstItemKind, keyword: Seq<char>, specs: Seq<usize>) -> Seq<
    (AstItemKind, Option<Seq<char>>, Seq<char>),
>
    decreases specs.len(),
{
    if specs.len() == 0 {
        Seq::empty()
    } else {
        value_heads(tree, kind, keyword, specs.drop_last()) + named_heads(
            kind,
            keyword,
            spec_names_of(tree, tree.nodes@[specs.last() as int].children@),
        )
    }
}

/// `keyword spec` for a spec that stands alone in a group; the whole declaration otherwise.
pub open spec fn go_prefixed_spec_text(tree: SyntaxTree, keyword: Seq<char>, owned: usize, spec: usize) -> Seq<
    char,
> {
    if owned == spec {
        keyword + seq![' '] + node_text_spec(tree, spec)
    } else {
        node_text_spec(tree, owned)
    }
}

/// `keyword spec` for a spec that stands alone in a group; the whole declaration otherwise.
fn go_prefixed_spec(tree: &SyntaxTree, keyword: &str, owned: usize, spec: usize) -> (r: Vec<char>)
    requires
        tree.wf(),
        tree.valid_node(owned),
        tree.valid_node(spec),
    ensures
        r@ == go_prefixed_spec_text(*tree, keyword@, owned, spec),
{
    if owned == spec {
        let mut out = chars_of(keyword);
        out.push(' ');
        push_all(&mut out, &tree.trimmed_node_text(spec));
        out
    } else {
        tree.trimmed_node_text(owned)
    }
}

/// The type that node `n` names, through pointers, generics and qualifiers: a type identifier's
/// text, a qualified type's name, a generic type's base type; for a pointer or a parameter its
/// `type`, or without one its first named child that names a type.
pub open spec fn go_nominal_type(tree: SyntaxTree, n: usize) -> Option<Seq<char>>
    decreases tree.nodes@.len() - n, 1int,
    when tree.wf() && tree.valid_node(n)
{
    let kind = tree.kind_of(n);
    proof {
        tree.lemma_field_child(n, "type"@);
    }
    if kind == "type_identifier"@ {
        Some(node_text_spec(tree, n))
    } else if kind == "qualified_type"@ {
        match tree.field_child(n, "name"@) {
            Some(name) => Some(node_text_spec(tree, name)),
            None => None,
        }
    } else if kind == "generic_type"@ {
        match tree.field_child(n, "type"@) {
            Some(inner) => go_nominal_type(tree, inner),
            None => None,
        }
    } else if kind == "pointer_type"@ || kind == "parameter_declaration"@ {
        match tree.field_child(n, "type"@) {
            Some(t) => go_nominal_type(tree, t),
            None => go_first_nominal_type(tree, n, 0),
        }
    } else {
        None
    }
}

/// The type that the first named child of `n`, from position `k` of its children on, names.
pub open spec fn go_first_nominal_type(tree: SyntaxTree, n: usize, k: int) -> Option<Seq<char>>
    decreases tree.nodes@.len() - n, 0int, tree.nodes@[n as int].children@.len() - k,
    when tree.wf() && tree.valid_node(n)
{
    let children = tree.nodes@[n as int].children@;
    if k < 0 || k >= children.len() {
        None
    } else {
        let c = children[k];
        proof {
            assert(n < c < tree.nodes@.len());
        }
        if !tree.nodes@[c as int].is_named {
            go_first_nominal_type(tree, n, k + 1)
        } else {
            match go_nominal_type(tree, c) {
                Some(t) => Some(t),
                None => go_first_nominal_type(tree, n, k + 1),
            }
        }
    }
}

/// The type that a receiver or parameter names, through pointers, generics and qualifiers.
fn extract_go_nominal_type(tree: &SyntaxTree, n: usize) -> (r: Option<Vec<char>>)
    requires
        tree.wf(),
        tree.valid_node(n),
    ensures
        opt_chars_view(r) == go_nominal_type(*tree, n),
    decreases tree.nodes@.len() - n, 1int,
{
    if tree.kind_is(n, "type_identifier") {
        return Some(tree.trimmed_node_text(n));
    }
    if tree.kind_is(n, "qualified_type") {
        return match tree.child_by_field(n, "name") {
            Some(name) => Some(tree.trimmed_node_text(name)),
            None => None,
        };
    }
    if tree.kind_is(n, "generic_type") {
        return match tree.child_by_field(n, "type") {
            Some(inner) => extract_go_nominal_type(tree, inner),
            None => None,
        };
    }
    if tree.kind_is(n, "pointer_type") || tree.kind_is(n, "parameter_declaration") {
        match tree.child_by_field(n, "type") {
            Some(t) => return extract_go_nominal_type(tree, t),
            None => {},
        }
        return go_first_nominal_child(tree, n);
    }
    None
}

/// The type that the first named child of `n` that names one names.
fn go_first_nominal_child(tree: &SyntaxTree, n: usize) -> (r: Option<Vec<char>>)
    requires
        tree.wf(),
        tree.valid_node(n),
    ensures
        opt_chars_view(r) == go_first_nominal_type(*tree, n, 0),
    decreases tree.nodes@.len() - n, 0int,
{
    let children = tree.children_of(n);
    let mut k: usize = 0;
    while k < children.len()
        invariant
            tree.wf(),
            tree.valid_node(n),
            k <= children@.len(),
            children@ == tree.nodes@[n as int].children@,
            forall|j: int| 0 <= j < children@.len() ==> n < #[trigger] children@[j] < tree.nodes@.len(),
            go_first_nominal_type(*tree, n, k as int) == go_first_nominal_type(*tree, n, 0),
        decreases children.len() - k,
    {
        let c = children[k];
        if tree.nodes[c].is_named {
            match extract_go_nominal_type(tree, c) {
                Some(t) => return Some(t),
                None => {},
            }
        }
        k = k + 1;
    }
    None
}

/// The type of the first parameter of receiver `receiver`, from position `k` of its children
/// on, that names one: by its `type`, or by itself.
pub open spec fn go_receiver_from(tree: SyntaxTree, receiver: usize, k: int) -> Option<Seq<char>>
    decreases tree.nodes@[receiver as int].children@.len() - k,
{
    let children = tree.nodes@[receiver as int].children@;
    if k < 0 || k >= children.len() {
        None
    } else {
        let p = children[k];
        let from_type = match tree.field_child(p, "type"@) {
            Some(t) => go_nominal_type(tree, t),
            None => None,
        };
        if !tree.nodes@[p as int].is_named {
            go_receiver_from(tree, receiver, k + 1)
        } else if from_type is Some {
            from_type
        } else if go_nominal_type(tree, p) is Some {
            go_nominal_type(tree, p)
        } else {
            go_receiver_from(tree, receiver, k + 1)
        }
    }
}

fn extract_go_receiver_type(tree: &SyntaxTree, receiver: usize) -> (r: Option<Vec<char>>)
    requires
        tree.wf(),
        tree.valid_node(receiver),
    ensures
        opt_chars_view(r) == go_receiver_from(*tree, receiver, 0),
{
    let children = tree.children_of(receiver);
    let mut k: usize = 0;
    while k < children.len()
        invariant
            tree.wf(),
            k <= children@.len(),
            children@ == tree.nodes@[receiver as int].children@,
            forall|j: int| 0 <= j < children@.len() ==> receiver < #[trigger] children@[j] < tree.nodes@.len(),
            go_receiver_from(*tree, receiver, k as int) == go_receiver_from(*tree, receiver, 0),
        decreases children.len() - k,
    {
        let parameter = children[k];
        if tree.nodes[parameter].is_named {
            let from_type = match tree.child_by_field(parameter, "type") {
                Some(t) => extract_go_nominal_type(tree, t),
                None => None,
            };
            match from_type {
                Some(t) => return Some(t),
                None => {},
            }
            match extract_go_nominal_type(tree, parameter) {
                Some(t) => return Some(t),
                None => {},
            }
        }
        k = k + 1;
    }
    None
}

/// The name of an embedded type: the text of a type identifier or qualified type, through
/// generics, pointers and type elements.
pub open spec fn go_embedded_name(tree: SyntaxTree, n: usize) -> Option<Seq<char>>
    decreases tree.nodes@.len() - n, 1int,
    when tree.wf() && tree.valid_node(n)
{
    let kind = tree.kind_of(n);
    proof {
        tree.lemma_field_child(n, "type"@);
    }
    if kind == "type_identifier"@ || kind == "qualified_type"@ {
        Some(node_text_spec(tree, n))
    } else if kind == "generic_type"@ {
        match tree.field_child(n, "type"@) {
            Some(inner) => go_embedded_name(tree, inner),
            None => None,
        }
    } else if kind == "pointer_type"@ || kind == "type_elem"@ {
        go_first_embedded_name(tree, n, 0)
    } else {
        None
    }
}

/// The embedded name of the first named child of `n`, from position `k` of its children on,
/// that has one.
pub open spec fn go_first_embedded_name(tree: SyntaxTree, n: usize, k: int) -> Option<Seq<char>>
    decreases tree.nodes@.len() - n, 0int, tree.nodes@[n as int].children@.len() - k,
    when tree.wf() && tree.valid_node(n)
{
    let children = tree.nodes@[n as int].children@;
    if k < 0 || k >= children.len() {
        None
    } else {
        let c = children[k];
        proof {
            assert(n < c < tree.nodes@.len());
        }
        if !tree.nodes@[c as int].is_named {
            go_first_embedded_name(tree, n, k + 1)
        } else {
            match go_embedded_name(tree, c) {
                Some(t) => Some(t),
                None => go_first_embedded_name(tree, n, k + 1),
            }
        }
    }
}

/// The name of an embedded type.
fn extract_go_embedded_name(tree: &SyntaxTree, n: usize) -> (r: Option<Vec<char>>)
    requires
        tree.wf(),
        tree.valid_node(n),
    ensures
        opt_chars_view(r) == go_embedded_name(*tree, n),
    decreases tree.nodes@.len() - n, 1int,
{
    if tree.kind_is(n, "type_identifier") || tree.kind_is(n, "qualified_type") {
        return Some(tree.trimmed_node_text(n));
    }
    if tree.kind_is(n, "generic_type") {
        return match tree.child_by_field(n, "type") {
            Some(inner) => extract_go_embedded_name(tree, inner),
            None => None,
        };
    }
    if tree.kind_is(n, "pointer_type") || tree.kind_is(n, "type_elem") {
        return go_first_embedded_child(tree, n);
    }
    None
}

/// The embedded name of the first named child of `n` that has one.
fn go_first_embedded_child(tree: &SyntaxTree, n: usize) -> (r: Option<Vec<char>>)
    requires
        tree.wf(),
        tree.valid_node(n),
    ensures
        opt_chars_view(r) == go_first_embedded_name(*tree, n, 0),
    decreases tree.nodes@.len() - n, 0int,
{
    let children = tree.children_of(n);
    let mut k: usize = 0;
    while k < children.len()
        invariant
            tree.wf(),
            tree.valid_node(n),
            k <= children@.len(),
            children@ == tree.nodes@[n as int].children@,
            forall|j: int| 0 <= j < children@.len() ==> n < #[trigger] children@[j] < tree.nodes@.len(),
            go_first_embedded_name(*tree, n, k as int) == go_first_embedded_name(*tree, n, 0),
        decreases children.len() - k,
    {
        let c = children[k];
        if tree.nodes[c].is_named {
            match extract_go_embedded_name(tree, c) {
                Some(t) => return Some(t),
                None => {},
            }
        }
        k = k + 1;
    }
    None
}

/// The texts of the children `cs` of a field declaration under the field `name`.
pub open spec fn field_names_of(tree: SyntaxTree, cs: Seq<usize>) -> Seq<Seq<char>>
    decreases cs.len(),
{
    if cs.len() == 0 {
        Seq::empty()
    } else {
        let before = field_names_of(tree, cs.drop_last());
        if tree.field_is(cs.last(), "name"@) {
            before.push(node_text_spec(tree, cs.last()))
        } else {
            before
        }
    }
}

/// The names of a struct field declaration: its names, or else the name of its embedded type.
pub open spec fn struct_field_names(tree: SyntaxTree, n: usize) -> Seq<Seq<char>> {
    let names = field_names_of(tree, tree.nodes@[n as int].children@);
    if names.len() > 0 {
        names
    } else {
        match tree.field_child(n, "type"@) {
            Some(t) => match go_embedded_name(tree, t) {
                Some(name) => seq![name],
                None => Seq::empty(),
            },
            None => Seq::empty(),
        }
    }
}

/// The heads of items named `names`: `prefix name` each, of kind `kind`.
pub open spec fn prefixed_heads(kind: AstItemKind, prefix: Seq<char>, names: Seq<Seq<char>>) -> Seq<
    (AstItemKind, Option<Seq<char>>, Seq<char>),
> {
    names.map_values(|name: Seq<char>| (kind, Some(name), prefix + name))
}

/// One item per name of a struct field (or one for an embedded type).
fn parse_go_struct_field_items(tree: &SyntaxTree, docs: &GoDocs, n: usize) -> (r: Vec<AstItem>)
    requires
        tree.wf(),
        tree.valid_node(n),
        docs.wf(tree),
    ensures
        heads(r@) == prefixed_heads(AstItemKind::Field, "field "@, struct_field_names(*tree, n)),
{
    let preamble = leading_item_preamble(tree, docs, n);
    let signature = tree.trimmed_node_text(n);
    let children = tree.children_of(n);
    let mut names: Vec<Vec<char>> = Vec::new();
    let mut k: usize = 0;
    assert(texts_view(names@) =~= field_names_of(*tree, children@.subrange(0, 0)));
    while k < children.len()
        invariant
            tree.wf(),
            k <= children@.len(),
            children@ == tree.nodes@[n as int].children@,
            forall|j: int| 0 <= j < children@.len() ==> n < #[trigger] children@[j] < tree.nodes@.len(),
            texts_view(names@) == field_names_of(*tree, children@.subrange(0, k as int)),
        decreases children.len() - k,
    {
        let child = children[k];
        let ghost before = texts_view(names@);
        proof {
            assert(children@.subrange(0, k + 1).drop_last() =~= children@.subrange(0, k as int));
        }
        let is_name = match &tree.nodes[child].field {
            Some(f) => crate::text::chars_eq_str(f, "name"),
            None => false,
        };
        if is_name {
            names.push(tree.trimmed_node_text(child));
            assert(texts_view(names@) =~= before.push(node_text_spec(*tree, child)));
        }
        k = k + 1;
    }
    assert(children@.subrange(0, children@.len() as int) =~= children@);
    if names.len() == 0 {
        match tree.child_by_field(n, "type") {
            Some(t) => match extract_go_embedded_name(tree, t) {
                Some(name) => {
                    names.push(name);
                    assert(texts_view(names@) =~= seq![names@[0]@]);
                },
                None => {},
            },
            None => {},
        }
    }
    let ghost all = texts_view(names@);
    assert(all == struct_field_names(*tree, n));
    let mut out: Vec<AstItem> = Vec::new();
    let mut k: usize = 0;
    assert(heads(out@) =~= prefixed_heads(AstItemKind::Field, "field "@, all.subrange(0, 0)));
    while k < names.len()
        invariant
            tree.wf(),
            tree.valid_node(n),
            preamble matches Some(p) ==> p.start <= tree.source@.len(),
            k <= names@.len(),
            all == texts_view(names@),
            heads(out@) == prefixed_heads(AstItemKind::Field, "field "@, all.subrange(0, k as int)),
        decreases names.len() - k,
    {
        let ghost before = heads(out@);
        let name = names[k].clone();
        assert(name@ == all[k as int]);
        let item_parts = go_parts(
            AstItemKind::Field,
            name.clone(),
            None,
            location_for_go_node(tree, n, &preamble),
            &preamble,
            prefixed("field ", &name),
            signature.clone(),
            signature.clone(),
        );
        out.push(make_item(item_parts, Vec::new()));
        proof {
            assert(all.subrange(0, k + 1) =~= all.subrange(0, k as int).push(all[k as int]));
            assert(prefixed_heads(AstItemKind::Field, "field "@, all.subrange(0, k + 1)) =~= before.push(
                (AstItemKind::Field, Some(all[k as int]), "field "@ + all[k as int]),
            ));
            assert(heads(out@) =~= before.push(item_head(out@[out@.len() - 1])));
        }
        k = k + 1;
    }
    assert(all.subrange(0, all.len() as int) =~= all);
    out
}

/// The head of a member of an interface: a method `fn name`, or an embedded type `type name`
/// (named by its text when it names none).
pub open spec fn interface_member_head(tree: SyntaxTree, n: usize) -> Option<
    (AstItemKind, Option<Seq<char>>, Seq<char>),
> {
    if tree.kind_of(n) == "method_elem"@ {
        match tree.field_child(n, "name"@) {
            Some(c) => Some(
                (AstItemKind::Function, Some(node_text_spec(tree, c)), "fn "@ + node_text_spec(tree, c)),
            ),
            None => None,
        }
    } else if tree.kind_of(n) == "type_elem"@ {
        let name = match go_embedded_name(tree, n) {
            Some(name) => name,
            None => node_text_spec(tree, n),
        };
        Some((AstItemKind::Field, Some(name), "type "@ + name))
    } else {
        None
    }
}

/// A method or embedded type of an interface.
fn parse_go_interface_member(tree: &SyntaxTree, docs: &GoDocs, n: usize) -> (r: Option<AstItem>)
    requires
        tree.wf(),
        tree.valid_node(n),
        docs.wf(tree),
    ensures
        r is Some <==> interface_member_head(*tree, n) is Some,
        r matches Some(item) ==> Some(item_head(item)) == interface_member_head(*tree, n),
{
    let preamble = leading_item_preamble(tree, docs, n);
    let signature = tree.trimmed_node_text(n);
    let (kind, name, summary) = if tree.kind_is(n, "method_elem") {
        let name = match child_text_by_field(tree, n, "name") {
            Some(name) => name,
            None => return None,
        };
        let summary = prefixed("fn ", &name);
        (AstItemKind::Function, name, summary)
    } else if tree.kind_is(n, "type_elem") {
        let name = match extract_go_embedded_name(tree, n) {
            Some(name) => name,
            None => signature.clone(),
        };
        let summary = prefixed("type ", &name);
        (AstItemKind::Field, name, summary)
    } else {
        return None;
    };
    let item_parts = go_parts(
        kind,
        name,
        None,
        location_for_go_node(tree, n, &preamble),
        &preamble,
        summary,
        signature.clone(),
        signature,
    );
    Some(make_item(item_parts, Vec::new()))
}

/// The first named child of `n` from position `k` on of kind `kind`.
pub open spec fn named_child_of_kind_from(tree: SyntaxTree, n: usize, kind: Seq<char>, k: int) -> Option<
    usize,
>
    decreases tree.named_children_spec(n).len() - k,
{
    let children = tree.named_children_spec(n);
    if k < 0 || k >= children.len() {
        None
    } else if tree.kind_of(children[k]) == kind {
        Some(children[k])
    } else {
        named_child_of_kind_from(tree, n, kind, k + 1)
    }
}

/// The heads of the fields that the children `ds` of a field list declare.
pub open spec fn field_declaration_heads(tree: SyntaxTree, ds: Seq<usize>) -> Seq<
    (AstItemKind, Option<Seq<char>>, Seq<char>),
>
    decreases ds.len(),
{
    if ds.len() == 0 {
        Seq::empty()
    } else {
        let before = field_declaration_heads(tree, ds.drop_last());
        if tree.kind_of(ds.last()) == "field_declaration"@ {
            before + prefixed_heads(AstItemKind::Field, "field "@, struct_field_names(tree, ds.last()))
        } else {
            before
        }
    }
}

/// The heads of the members `cs` of an interface type.
pub open spec fn interface_member_heads(tree: SyntaxTree, cs: Seq<usize>) -> Seq<
    (AstItemKind, Option<Seq<char>>, Seq<char>),
>
    decreases cs.len(),
{
    if cs.len() == 0 {
        Seq::empty()
    } else {
        let before = interface_member_heads(tree, cs.drop_last());
        match interface_member_head(tree, cs.last()) {
            Some(h) => before.push(h),
            None => before,
        }
    }
}

/// The heads of the members of a type: the fields of a struct's first field list, or the
/// members of an interface.
pub open spec fn go_type_member_heads(tree: SyntaxTree, t: usize) -> Seq<
    (AstItemKind, Option<Seq<char>>, Seq<char>),
> {
    if tree.kind_of(t) == "struct_type"@ {
        match named_child_of_kind_from(tree, t, "field_declaration_list"@, 0) {
            Some(fields) => field_declaration_heads(tree, tree.named_children_spec(fields)),
            None => Seq::empty(),
        }
    } else if tree.kind_of(t) == "interface_type"@ {
        interface_member_heads(tree, tree.named_children_spec(t))
    } else {
        Seq::empty()
    }
}

/// The fields of a struct type or the members of an interface type.
fn parse_go_type_members(tree: &SyntaxTree, docs: &GoDocs, n: usize) -> (r: Vec<AstItem>)
    requires
        tree.wf(),
        tree.valid_node(n),
        docs.wf(tree),
    ensures
        heads(r@) == go_type_member_heads(*tree, n),
{
    let mut out: Vec<AstItem> = Vec::new();
    assert(heads(out@) =~= Seq::empty());
    if tree.kind_is(n, "struct_type") {
        let children = tree.named_children(n);
        let mut k: usize = 0;
        while k < children.len()
            invariant
                tree.wf(),
                docs.wf(tree),
                k <= children@.len(),
                children@ == tree.named_children_spec(n),
                out@.len() == 0,
                named_child_of_kind_from(*tree, n, "field_declaration_list"@, k as int)
                    == named_child_of_kind_from(*tree, n, "field_declaration_list"@, 0),
                go_type_member_heads(*tree, n) == match named_child_of_kind_from(
                    *tree,
                    n,
                    "field_declaration_list"@,
                    0,
                ) {
                    Some(fields) => field_declaration_heads(*tree, tree.named_children_spec(fields)),
                    None => Seq::empty(),
                },
                forall|j: int| 0 <= j < children@.len() ==> n < #[trigger] children@[j] < tree.nodes@.len(),
            decreases children.len() - k,
        {
            let fields = children[k];
            if tree.kind_is(fields, "field_declaration_list") {
                let declarations = tree.named_children(fields);
                let mut j: usize = 0;
                assert(heads(out@) =~= field_declaration_heads(*tree, declarations@.subrange(0, 0)));
                while j < declarations.len()
                    invariant
                        tree.wf(),
                        docs.wf(tree),
                        fields < tree.nodes@.len(),
                        j <= declarations@.len(),
                        declarations@ == tree.named_children_spec(fields),
                        forall|i: int| 0 <= i < declarations@.len() ==> fields < #[trigger] declarations@[i] < tree.nodes@.len(),
                        heads(out@) == field_declaration_heads(*tree, declarations@.subrange(0, j as int)),
                    decreases declarations.len() - j,
                {
                    let ghost before = heads(out@);
                    proof {
                        assert(declarations@.subrange(0, j + 1).drop_last() =~= declarations@.subrange(
                            0,
                            j as int,
                        ));
                    }
                    if tree.kind_is(declarations[j], "field_declaration") {
                        let mut items = parse_go_struct_field_items(tree, docs, declarations[j]);
                        let ghost added = heads(items@);
                        out.append(&mut items);
                        assert(heads(out@) =~= before + added);
                    }
                    j = j + 1;
                }
                assert(declarations@.subrange(0, declarations@.len() as int) =~= declarations@);
                return out;
            }
            k = k + 1;
        }
    } else if tree.kind_is(n, "interface_type") {
        let children = tree.named_children(n);
        let mut k: usize = 0;
        assert(heads(out@) =~= interface_member_heads(*tree, children@.subrange(0, 0)));
        while k < children.len()
            invariant
                tree.wf(),
                docs.wf(tree),
                k <= children@.len(),
                children@ == tree.named_children_spec(n),
                forall|j: int| 0 <= j < children@.len() ==> n < #[trigger] children@[j] < tree.nodes@.len(),
                heads(out@) == interface_member_heads(*tree, children@.subrange(0, k as int)),
            decreases children.len() - k,
        {
            let ghost before = heads(out@);
            proof {
                assert(children@.subrange(0, k + 1).drop_last() =~= children@.subrange(0, k as int));
            }
            match parse_go_interface_member(tree, docs, children[k]) {
                Some(item) => {
                    out.push(item);
                    assert(heads(out@) =~= before.push(item_head(out@[out@.len() - 1])));
                },
                None => {},
            }
            k = k + 1;
        }
        assert(children@.subrange(0, children@.len() as int) =~= children@);
    }
    out
}

/// The kind and keyword of a declared type: a struct, an interface, or else a type.
pub open spec fn go_type_kind(tree: SyntaxTree, spec: usize) -> (AstItemKind, Seq<char>) {
    match tree.field_child(spec, "type"@) {
        Some(t) => if tree.kind_of(t) == "struct_type"@ {
            (AstItemKind::Struct, "struct"@)
        } else if tree.kind_of(t) == "interface_type"@ {
            (AstItemKind::Interface, "interface"@)
        } else {
            (AstItemKind::TypeAlias, "type"@)
        },
        None => (AstItemKind::TypeAlias, "type"@),
    }
}

/// The kind, name and summary of a declared type: `keyword name`.
pub open spec fn type_spec_head(tree: SyntaxTree, spec: usize) -> (AstItemKind, Option<Seq<char>>, Seq<char>) {
    (
        go_type_kind(tree, spec).0,
        Some(go_name_text(tree, spec)),
        go_type_kind(tree, spec).1 + seq![' '] + go_name_text(tree, spec),
    )
}

/// The heads of the types that the children `cs` of a `type` declaration declare.
pub open spec fn type_heads_of(tree: SyntaxTree, cs: Seq<usize>) -> Seq<
    (AstItemKind, Option<Seq<char>>, Seq<char>),
>
    decreases cs.len(),
{
    if cs.len() == 0 {
        Seq::empty()
    } else {
        let before = type_heads_of(tree, cs.drop_last());
        let c = cs.last();
        if tree.kind_of(c) == "type_spec"@ || tree.kind_of(c) == "type_alias"@ {
            before.push(type_spec_head(tree, c))
        } else {
            before
        }
    }
}

/// A type declared by a `type` declaration: a struct, an interface or another type.
fn parse_go_type_spec_item(
    tree: &SyntaxTree,
    docs: &GoDocs,
    render: usize,
    spec: usize,
    grouped: bool,
    group_preamble: Option<&GoItemPreamble>,
) -> (r: AstItem)
    requires
        tree.wf(),
        tree.valid_node(render),
        tree.valid_node(spec),
        docs.wf(tree),
    ensures
        item_head(r) == type_spec_head(*tree, spec),
        heads(r.children@) == match tree.field_child(spec, "type"@) {
            Some(t) => go_type_member_heads(*tree, t),
            None => Seq::empty(),
        },
{
    let name = name_or_anonymous(child_text_by_field(tree, spec, "name"));
    let type_node = tree.child_by_field(spec, "type");
    let (kind, keyword): (AstItemKind, &str) = match type_node {
        Some(t) => if tree.kind_is(t, "struct_type") {
            (AstItemKind::Struct, "struct")
        } else if tree.kind_is(t, "interface_type") {
            (AstItemKind::Interface, "interface")
        } else {
            (AstItemKind::TypeAlias, "type")
        },
        None => (AstItemKind::TypeAlias, "type"),
    };
    let owned = if grouped {
        spec
    } else {
        render
    };
    let owned_preamble = leading_item_preamble(tree, docs, owned);
    let preamble = merge_go_preambles(
        group_preamble,
        match &owned_preamble {
            Some(p) => Some(p),
            None => None,
        },
    );
    let declaration = go_prefixed_spec(tree, "type", owned, spec);
    let signature = match type_node {
        Some(t) => if tree.kind_is(t, "struct_type") || tree.kind_is(t, "interface_type") {
            proof {
                lemma_node_in_source(tree, spec);
                lemma_node_in_source(tree, t);
            }
            let prefix = trimmed_between(tree, tree.nodes[spec].start, tree.nodes[t].start);
            let mut out = chars_of("type ");
            push_all(&mut out, &prefix);
            out.push(' ');
            if tree.kind_is(t, "struct_type") {
                push_str(&mut out, "struct");
            } else {
                push_str(&mut out, "interface");
            }
            out
        } else {
            declaration.clone()
        },
        None => declaration.clone(),
    };
    let children = match type_node {
        Some(t) => parse_go_type_members(tree, docs, t),
        None => Vec::new(),
    };
    let mut summary = chars_of(keyword);
    summary.push(' ');
    push_all(&mut summary, &name);
    assert(summary@ =~= keyword@ + seq![' '] + name@);
    let item_parts = go_parts(
        kind,
        name,
        None,
        location_for_go_node(tree, owned, &owned_preamble),
        &preamble,
        summary,
        signature,
        declaration,
    );
    make_item(item_parts, children)
}

/// The types of a `type` declaration; in a group, the group's comments go to the first.
fn parse_go_type_declaration_items(tree: &SyntaxTree, docs: &GoDocs, n: usize) -> (r: Vec<AstItem>)
    requires
        tree.wf(),
        tree.valid_node(n),
        docs.wf(tree),
    ensures
        heads(r@) == type_heads_of(*tree, tree.named_children_spec(n)),
{
    let grouped = go_declaration_is_grouped(tree, n);
    let group_preamble = if grouped {
        leading_item_preamble(tree, docs, n)
    } else {
        None
    };
    let children = tree.named_children(n);
    let mut out: Vec<AstItem> = Vec::new();
    let mut index: usize = 0;
    let mut k: usize = 0;
    assert(heads(out@) =~= type_heads_of(*tree, children@.subrange(0, 0)));
    while k < children.len()
        invariant
            tree.wf(),
            docs.wf(tree),
            n < tree.nodes@.len(),
            k <= children@.len(),
            children@ == tree.named_children_spec(n),
            forall|j: int| 0 <= j < children@.len() ==> n < #[trigger] children@[j] < tree.nodes@.len(),
            index <= k,
            heads(out@) == type_heads_of(*tree, children@.subrange(0, k as int)),
        decreases children.len() - k,
    {
        let spec = children[k];
        let ghost before = heads(out@);
        proof {
            assert(children@.subrange(0, k + 1).drop_last() =~= children@.subrange(0, k as int));
        }
        if tree.kind_is(spec, "type_spec") || tree.kind_is(spec, "type_alias") {
            let context = if index == 0 {
                match &group_preamble {
                    Some(p) => Some(p),
                    None => None,
                }
            } else {
                None
            };
            out.push(parse_go_type_spec_item(tree, docs, n, spec, grouped, context));
            assert(heads(out@) =~= before.push(item_head(out@[out@.len() - 1])));
            index = index + 1;
        }
        k = k + 1;
    }
    assert(children@.subrange(0, children@.len() as int) =~= children@);
    out
}

/// The constants or variables of a declaration: one item per declared name.
fn parse_go_value_declaration_items(
    tree: &SyntaxTree,
    docs: &GoDocs,
    kind: AstItemKind,
    keyword: &str,
    is_const: bool,
    n: usize,
) -> (r: Vec<AstItem>)
    requires
        tree.wf(),
        tree.valid_node(n),
        docs.wf(tree),
    ensures
        heads(r@) == value_heads(*tree, kind, keyword@, go_declaration_specs_spec(*tree, n, is_const)),
{
    let grouped = go_declaration_is_grouped(tree, n);
    let group_preamble = if grouped {
        leading_item_preamble(tree, docs, n)
    } else {
        None
    };
    let specs = go_declaration_specs(tree, n, is_const);
    let mut items: Vec<AstItem> = Vec::new();
    let mut s: usize = 0;
    assert(heads(items@) =~= value_heads(*tree, kind, keyword@, specs@.subrange(0, 0)));
    while s < specs.len()
        invariant
            tree.wf(),
            docs.wf(tree),
            n < tree.nodes@.len(),
            s <= specs@.len(),
            forall|j: int| 0 <= j < specs@.len() ==> n < #[trigger] specs@[j] < tree.nodes@.len(),
            heads(items@) == value_heads(*tree, kind, keyword@, specs@.subrange(0, s as int)),
        decreases specs.len() - s,
    {
        let spec = specs[s];
        let owned = if grouped {
            spec
        } else {
            n
        };
        let owned_preamble = leading_item_preamble(tree, docs, owned);
        let declaration = go_prefixed_spec(tree, keyword, owned, spec);
        let names = go_spec_names(tree, spec);
        let ghost base = heads(items@);
        let ghost all_names = texts_view(names@);
        proof {
            assert(specs@.subrange(0, s + 1).drop_last() =~= specs@.subrange(0, s as int));
            assert(heads(items@) =~= base + named_heads(kind, keyword@, all_names.subrange(0, 0)));
        }
        let mut k: usize = 0;
        while k < names.len()
            invariant
                tree.wf(),
                tree.valid_node(owned),
                owned_preamble matches Some(p) ==> p.start <= tree.source@.len(),
                k <= names@.len(),
                all_names == texts_view(names@),
                heads(items@) == base + named_heads(kind, keyword@, all_names.subrange(0, k as int)),
            decreases names.len() - k,
        {
            let ghost before = heads(items@);
            let context = if s == 0 && k == 0 {
                match &group_preamble {
                    Some(p) => Some(p),
                    None => None,
                }
            } else {
                None
            };
            let preamble = merge_go_preambles(
                context,
                match &owned_preamble {
                    Some(p) => Some(p),
                    None => None,
                },
            );
            let name = names[k].clone();
            assert(name@ == all_names[k as int]);
            let mut summary = chars_of(keyword);
            summary.push(' ');
            push_all(&mut summary, &name);
            assert(summary@ =~= keyword@ + seq![' '] + all_names[k as int]);
            let item_parts = go_parts(
                kind,
                name,
                None,
                location_for_go_node(tree, owned, &owned_preamble),
                &preamble,
                summary,
                declaration.clone(),
                declaration.clone(),
            );
            items.push(make_item(item_parts, Vec::new()));
            proof {
                assert(all_names.subrange(0, k + 1) =~= all_names.subrange(0, k as int).push(
                    all_names[k as int],
                ));
                assert(named_heads(kind, keyword@, all_names.subrange(0, k + 1)) =~= named_heads(
                    kind,
                    keyword@,
                    all_names.subrange(0, k as int),
                ).push((kind, Some(all_names[k as int]), keyword@ + seq![' '] + all_names[k as int])));
                assert(heads(items@) =~= before.push(item_head(items@[items@.len() - 1])));
            }
            k = k + 1;
        }
        assert(all_names.subrange(0, all_names.len() as int) =~= all_names);
        s = s + 1;
    }
    assert(specs@.subrange(0, specs@.len() as int) =~= specs@);
    items
}

/// A function or method; the declarations of its body are its children.
fn parse_go_function_item(tree: &SyntaxTree, docs: &GoDocs, n: usize, is_method: bool) -> (r: AstItem)
    requires
        tree.wf(),
        tree.valid_node(n),
        docs.wf(tree),
    ensures
        item_head(r) == go_function_head(*tree, n, is_method),
        heads(r.children@) == match tree.field_child(n, "body"@) {
            Some(body) => go_body_heads(*tree, body),
            None => Seq::empty(),
        },
    decreases tree.nodes@.len() - n, 1int,
{
    let name = name_or_anonymous(child_text_by_field(tree, n, "name"));
    let receiver = match tree.child_by_field(n, "receiver") {
        Some(r) => extract_go_receiver_type(tree, r),
        None => None,
    };
    let summary = if is_method {
        match &receiver {
            Some(t) => {
                let mut out = chars_of("method ");
                push_all(&mut out, t);
                out.push('.');
                push_all(&mut out, &name);
                assert(out@ =~= "method "@ + t@ + seq!['.'] + name@);
                out
            },
            None => prefixed("method ", &name),
        }
    } else {
        prefixed("func ", &name)
    };
    let preamble = leading_item_preamble(tree, docs, n);
    let children = match tree.child_by_field(n, "body") {
        Some(body) => collect_go_supported_items(tree, docs, body),
        None => Vec::new(),
    };
    let item_parts = go_parts(
        AstItemKind::Function,
        name,
        receiver,
        location_for_go_node(tree, n, &preamble),
        &preamble,
        summary,
        signature_text(tree, n),
        tree.trimmed_node_text(n),
    );
    make_item(item_parts, children)
}

/// The text of the `name` field of a declaration, or `<anonymous>`.
pub open spec fn go_name_text(tree: SyntaxTree, n: usize) -> Seq<char> {
    match tree.field_child(n, "name"@) {
        Some(c) => crate::outline_common::node_text_spec(tree, c),
        None => "<anonymous>"@,
    }
}

/// The kind, name and summary of a function (`func name`) or method (`method Type.name`, or
/// `method name` without a receiver type).
pub open spec fn go_function_head(tree: SyntaxTree, n: usize, is_method: bool) -> (
    AstItemKind,
    Option<Seq<char>>,
    Seq<char>,
) {
    let name = go_name_text(tree, n);
    let receiver = match tree.field_child(n, "receiver"@) {
        Some(r) => go_receiver_from(tree, r, 0),
        None => None,
    };
    (
        AstItemKind::Function,
        Some(name),
        if is_method {
            match receiver {
                Some(t) => "method "@ + t + seq!['.'] + name,
                None => "method "@ + name,
            }
        } else {
            "func "@ + name
        },
    )
}

/// The heads of the items that a Go declaration declares: a function or method one, a type
/// declaration one per type, a constant or variable declaration one per name.
pub open spec fn go_items_heads(tree: SyntaxTree, n: usize) -> Seq<
    (AstItemKind, Option<Seq<char>>, Seq<char>),
> {
    let kind = tree.kind_of(n);
    if kind == "function_declaration"@ {
        seq![go_function_head(tree, n, false)]
    } else if kind == "method_declaration"@ {
        seq![go_function_head(tree, n, true)]
    } else if kind == "type_declaration"@ {
        type_heads_of(tree, tree.named_children_spec(n))
    } else if kind == "const_declaration"@ {
        value_heads(tree, AstItemKind::Const, "const"@, go_declaration_specs_spec(tree, n, true))
    } else if kind == "var_declaration"@ {
        value_heads(tree, AstItemKind::Static, "var"@, go_declaration_specs_spec(tree, n, false))
    } else {
        Seq::empty()
    }
}

/// The heads of the items of the declarations `cs`, in order.
pub open spec fn go_collected_heads(tree: SyntaxTree, cs: Seq<usize>) -> Seq<
    (AstItemKind, Option<Seq<char>>, Seq<char>),
>
    decreases cs.len(),
{
    if cs.len() == 0 {
        Seq::empty()
    } else {
        go_collected_heads(tree, cs.drop_last()) + go_items_heads(tree, cs.last())
    }
}

/// The node whose children hold the declarations of `n`: the statement list of a block, or
/// `n` itself.
pub open spec fn go_container(tree: SyntaxTree, n: usize) -> usize {
    if tree.kind_of(n) == "block"@ {
        match named_child_of_kind_from(tree, n, "statement_list"@, 0) {
            Some(c) => c,
            None => n,
        }
    } else {
        n
    }
}

/// The heads of the items of the declarations in a file or a block.
pub open spec fn go_body_heads(tree: SyntaxTree, n: usize) -> Seq<
    (AstItemKind, Option<Seq<char>>, Seq<char>),
> {
    go_collected_heads(tree, tree.named_children_spec(go_container(tree, n)))
}

fn parse_go_items(tree: &SyntaxTree, docs: &GoDocs, n: usize) -> (r: Vec<AstItem>)
    requires
        tree.wf(),
        tree.valid_node(n),
        docs.wf(tree),
    ensures
        heads(r@) == go_items_heads(*tree, n),
    decreases tree.nodes@.len() - n, 2int,
{
    let mut out: Vec<AstItem> = Vec::new();
    if tree.kind_is(n, "function_declaration") {
        out.push(parse_go_function_item(tree, docs, n, false));
    } else if tree.kind_is(n, "method_declaration") {
        out.push(parse_go_function_item(tree, docs, n, true));
    } else if tree.kind_is(n, "type_declaration") {
        return parse_go_type_declaration_items(tree, docs, n);
    } else if tree.kind_is(n, "const_declaration") {
        return parse_go_value_declaration_items(tree, docs, AstItemKind::Const, "const", true, n);
    } else if tree.kind_is(n, "var_declaration") {
        return parse_go_value_declaration_items(tree, docs, AstItemKind::Static, "var", false, n);
    }
    out
}

/// The items of the declarations in a file or a block (in its statement list).
fn collect_go_supported_items(tree: &SyntaxTree, docs: &GoDocs, n: usize) -> (r: Vec<AstItem>)
    requires
        tree.wf(),
        tree.valid_node(n),
        docs.wf(tree),
    ensures
        heads(r@) == go_body_heads(*tree, n),
    decreases tree.nodes@.len() - n, 0int,
{
    let mut container = n;
    if tree.kind_is(n, "block") {
        let children = tree.named_children(n);
        let mut k: usize = 0;
        while k < children.len()
            invariant_except_break
                container == n,
            invariant
                tree.wf(),
                n <= container < tree.nodes@.len(),
                k <= children@.len(),
                children@ == tree.named_children_spec(n),
                named_child_of_kind_from(*tree, n, "statement_list"@, k as int)
                    == named_child_of_kind_from(*tree, n, "statement_list"@, 0),
                forall|j: int| 0 <= j < children@.len() ==> n < #[trigger] children@[j] < tree.nodes@.len(),
            ensures
                n <= container < tree.nodes@.len(),
                container == match named_child_of_kind_from(*tree, n, "statement_list"@, 0) {
                    Some(c) => c,
                    None => n,
                },
            decreases children.len() - k,
        {
            if tree.kind_is(children[k], "statement_list") {
                container = children[k];
                break ;
            }
            k = k + 1;
        }
    }
    assert(container == go_container(*tree, n));
    let children = tree.named_children(container);
    let mut items: Vec<AstItem> = Vec::new();
    let mut k: usize = 0;
    assert(heads(items@) =~= go_collected_heads(*tree, children@.subrange(0, 0)));
    while k < children.len()
        invariant
            tree.wf(),
            docs.wf(tree),
            n <= container < tree.nodes@.len(),
            k <= children@.len(),
            children@ == tree.named_children_spec(container),
            forall|j: int| 0 <= j < children@.len() ==> container < #[trigger] children@[j] < tree.nodes@.len(),
            heads(items@) == go_collected_heads(*tree, children@.subrange(0, k as int)),
        decreases children.len() - k,
    {
        let ghost before = heads(items@);
        proof {
            assert(children@.subrange(0, k + 1).drop_last() =~= children@.subrange(0, k as int));
        }
        let mut found = parse_go_items(tree, docs, children[k]);
        let ghost added = heads(found@);
        items.append(&mut found);
        assert(heads(items@) =~= before + added);
        k = k + 1;
    }
    assert(children@.subrange(0, children@.len() as int) =~= children@);
    items
}

/// The outline of a parsed Go file. A file that does not start with its package clause, or
/// that holds more than declarations after it, has errors.
pub fn go_file_ast(tree: &SyntaxTree) -> (r: FileAst)
    requires
        tree.wf(),
    ensures
        r.language == AstLanguage::Go,
        r.has_errors == (tree.nodes@[0].has_error || go_shape_error_spec(*tree) is Some),
        r.first_error == earliest_error(
            crate::outline::first_error_spec(*tree),
            go_shape_error_spec(*tree),
        ),
        heads(r.items@) == go_body_heads(*tree, 0),
{
    let docs = go_docs(tree);
    let collected = collect_go_supported_items(tree, &docs, 0);
    let ghost raw = collected@;
    let items = mark_overlapping_sibling_locations(collected);
    proof {
        assert forall|k: int| 0 <= k < raw.len() implies #[trigger] items@[k].kind == raw[k].kind
            && items@[k].name == raw[k].name && items@[k].summary == raw[k].summary by {
            crate::outline::lemma_siblings_marked_item(raw, items@, k);
        }
    }
    assert(heads(items@) =~= heads(raw));
    let syntax_error = first_syntax_error(tree);
    let shape_error = first_go_source_shape_error(tree);
    FileAst {
        language: AstLanguage::Go,
        root_docs: opt_string(root_module_docs(tree, &docs)),
        items,
        has_errors: tree.nodes[0].has_error || shape_error.is_some(),
        first_error: earliest_syntax_error(syntax_error, shape_error),
    }
}

} // verus!
