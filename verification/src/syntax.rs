//! A plain syntax tree: the nodes of a Tree-sitter parse tree, copied into values that verified
//! code can read. Node ranges are character offsets into the source's characters; points keep
//! Tree-sitter's zero-based rows and byte columns.
use vstd::prelude::*;

use crate::error::SmartEditError;
use crate::outline::AstLanguage;
use crate::text::{chars_eq, chars_of};

verus! {

#[verifier::external_type_specification]
#[verifier::external_body]
pub struct ExTree(tree_sitter::Tree);

/// A Tree-sitter parse tree of `source`, made with the grammar of `language`.
pub struct ParsedTree {
    tree: tree_sitter::Tree,
    language: AstLanguage,
    source: String,
}

impl View for ParsedTree {
    type V = (AstLanguage, Seq<char>);

    closed spec fn view(&self) -> (AstLanguage, Seq<char>) {
        (self.language, self.source@)
    }
}

/// What Tree-sitter reports of one node of a parse tree, found by its position in pre-order.
pub struct RawNode {
    pub kind: Vec<char>,
    pub field: Option<Vec<char>>,
    pub depth: usize,
    pub start_byte: usize,
    pub end_byte: usize,
    pub start_row: usize,
    pub start_column: usize,
    pub end_row: usize,
    pub end_column: usize,
    pub is_named: bool,
    pub is_error: bool,
    pub is_missing: bool,
    pub has_error: bool,
}

/// A node as Tree-sitter reports it, as plain values.
pub struct RawNodeView {
    pub kind: Seq<char>,
    pub field: Option<Seq<char>>,
    pub depth: usize,
    pub start_byte: usize,
    pub end_byte: usize,
    pub start_row: usize,
    pub start_column: usize,
    pub end_row: usize,
    pub end_column: usize,
    pub is_named: bool,
    pub is_error: bool,
    pub is_missing: bool,
    pub has_error: bool,
}

impl View for RawNode {
    type V = RawNodeView;

    open spec fn view(&self) -> RawNodeView {
        RawNodeView {
            kind: self.kind@,
            field: match self.field {
                Some(f) => Some(f@),
                None => None,
            },
            depth: self.depth,
            start_byte: self.start_byte,
            end_byte: self.end_byte,
            start_row: self.start_row,
            start_column: self.start_column,
            end_row: self.end_row,
            end_column: self.end_column,
            is_named: self.is_named,
            is_error: self.is_error,
            is_missing: self.is_missing,
            has_error: self.has_error,
        }
    }
}

/// The number of nodes of the tree that Tree-sitter's grammar for `language` parses `source`
/// into (`Parser::parse` with that grammar set, then `Node::descendant_count` of the root,
/// which counts the root too).
pub uninterp spec fn ts_node_total(language: AstLanguage, source: Seq<char>) -> usize;

/// Node `index`, in pre-order (the root is `0`), of the tree that Tree-sitter's grammar for
/// `language` parses `source` into, as `TreeCursor::goto_descendant` finds it from the root:
/// its `Node` properties, its `TreeCursor::field_name` and its `TreeCursor::depth` below the root.
pub uninterp spec fn ts_raw_node(language: AstLanguage, source: Seq<char>, index: int) -> RawNodeView;

/// `tree_sitter::Parser::new`, `set_language` with `tree_sitter_rust::LANGUAGE`, then `parse`
/// of `source` without an old tree: an error of `set_language` is its message, and no tree
/// when `parse` gives none.
#[verifier::external_body]
fn ts_parse_rust(source: &str) -> (r: Result<Option<ParsedTree>, String>)
    ensures
        r matches Ok(Some(t)) ==> t@ == (AstLanguage::Rust, source@),
{
    let mut parser = tree_sitter::Parser::new();
    parser.set_language(&tree_sitter_rust::LANGUAGE.into()).map_err(|error| error.to_string())?;
    Ok(parser.parse(source, None).map(|tree| ParsedTree { tree, language: AstLanguage::Rust, source: source.to_string() }))
}

/// `tree_sitter::Parser::new`, `set_language` with `tree_sitter_python::LANGUAGE`, then `parse` of `source`
/// without an old tree, as `ts_parse_rust` does.
#[verifier::external_body]
fn ts_parse_python(source: &str) -> (r: Result<Option<ParsedTree>, String>)
    ensures
        r matches Ok(Some(t)) ==> t@ == (AstLanguage::Python, source@),
{
    let mut parser = tree_sitter::Parser::new();
    parser.set_language(&tree_sitter_python::LANGUAGE.into()).map_err(|error| error.to_string())?;
    Ok(parser.parse(source, None).map(|tree| ParsedTree { tree, language: AstLanguage::Python, source: source.to_string() }))
}

/// `tree_sitter::Parser::new`, `set_language` with `tree_sitter_javascript::LANGUAGE`, then `parse` of `source`
/// without an old tree, as `ts_parse_rust` does.
#[verifier::external_body]
fn ts_parse_javascript(source: &str) -> (r: Result<Option<ParsedTree>, String>)
    ensures
        r matches Ok(Some(t)) ==> t@ == (AstLanguage::JavaScript, source@),
{
    let mut parser = tree_sitter::Parser::new();
    parser.set_language(&tree_sitter_javascript::LANGUAGE.into()).map_err(|error| error.to_string())?;
    Ok(parser.parse(source, None).map(|tree| ParsedTree { tree, language: AstLanguage::JavaScript, source: source.to_string() }))
}

/// `tree_sitter::Parser::new`, `set_language` with `tree_sitter_typescript::LANGUAGE_TYPESCRIPT`, then `parse` of `source`
/// without an old tree, as `ts_parse_rust` does.
#[verifier::external_body]
fn ts_parse_typescript(source: &str) -> (r: Result<Option<ParsedTree>, String>)
    ensures
        r matches Ok(Some(t)) ==> t@ == (AstLanguage::TypeScript, source@),
{
    let mut parser = tree_sitter::Parser::new();
    parser.set_language(&tree_sitter_typescript::LANGUAGE_TYPESCRIPT.into()).map_err(|error| error.to_string())?;
    Ok(parser.parse(source, None).map(|tree| ParsedTree { tree, language: AstLanguage::TypeScript, source: source.to_string() }))
}

/// `tree_sitter::Parser::new`, `set_language` with `tree_sitter_typescript::LANGUAGE_TSX`, then `parse` of `source`
/// without an old tree, as `ts_parse_rust` does.
#[verifier::external_body]
fn ts_parse_tsx(source: &str) -> (r: Result<Option<ParsedTree>, String>)
    ensures
        r matches Ok(Some(t)) ==> t@ == (AstLanguage::Tsx, source@),
{
    let mut parser = tree_sitter::Parser::new();
    parser.set_language(&tree_sitter_typescript::LANGUAGE_TSX.into()).map_err(|error| error.to_string())?;
    Ok(parser.parse(source, None).map(|tree| ParsedTree { tree, language: AstLanguage::Tsx, source: source.to_string() }))
}

/// `tree_sitter::Parser::new`, `set_language` with `tree_sitter_go::LANGUAGE`, then `parse` of `source`
/// without an old tree, as `ts_parse_rust` does.
#[verifier::external_body]
fn ts_parse_go(source: &str) -> (r: Result<Option<ParsedTree>, String>)
    ensures
        r matches Ok(Some(t)) ==> t@ == (AstLanguage::Go, source@),
{
    let mut parser = tree_sitter::Parser::new();
    parser.set_language(&tree_sitter_go::LANGUAGE.into()).map_err(|error| error.to_string())?;
    Ok(parser.parse(source, None).map(|tree| ParsedTree { tree, language: AstLanguage::Go, source: source.to_string() }))
}

/// `tree_sitter::Parser::new`, `set_language` with `tree_sitter_scala::LANGUAGE`, then `parse` of `source`
/// without an old tree, as `ts_parse_rust` does.
#[verifier::external_body]
fn ts_parse_scala(source: &str) -> (r: Result<Option<ParsedTree>, String>)
    ensures
        r matches Ok(Some(t)) ==> t@ == (AstLanguage::Scala, source@),
{
    let mut parser = tree_sitter::Parser::new();
    parser.set_language(&tree_sitter_scala::LANGUAGE.into()).map_err(|error| error.to_string())?;
    Ok(parser.parse(source, None).map(|tree| ParsedTree { tree, language: AstLanguage::Scala, source: source.to_string() }))
}

/// `tree_sitter::Parser::new`, `set_language` with `tree_sitter_java::LANGUAGE`, then `parse` of `source`
/// without an old tree, as `ts_parse_rust` does.
#[verifier::external_body]
fn ts_parse_java(source: &str) -> (r: Result<Option<ParsedTree>, String>)
    ensures
        r matches Ok(Some(t)) ==> t@ == (AstLanguage::Java, source@),
{
    let mut parser = tree_sitter::Parser::new();
    parser.set_language(&tree_sitter_java::LANGUAGE.into()).map_err(|error| error.to_string())?;
    Ok(parser.parse(source, None).map(|tree| ParsedTree { tree, language: AstLanguage::Java, source: source.to_string() }))
}

/// `tree_sitter::Parser::new`, `set_language` with `tree_sitter_kotlin_ng::LANGUAGE`, then `parse` of `source`
/// without an old tree, as `ts_parse_rust` does.
#[verifier::external_body]
fn ts_parse_kotlin(source: &str) -> (r: Result<Option<ParsedTree>, String>)
    ensures
        r matches Ok(Some(t)) ==> t@ == (AstLanguage::Kotlin, source@),
{
    let mut parser = tree_sitter::Parser::new();
    parser.set_language(&tree_sitter_kotlin_ng::LANGUAGE.into()).map_err(|error| error.to_string())?;
    Ok(parser.parse(source, None).map(|tree| ParsedTree { tree, language: AstLanguage::Kotlin, source: source.to_string() }))
}

/// `tree_sitter::Parser::new`, `set_language` with `tree_sitter_lua::LANGUAGE`, then `parse` of `source`
/// without an old tree, as `ts_parse_rust` does.
#[verifier::external_body]
fn ts_parse_lua(source: &str) -> (r: Result<Option<ParsedTree>, String>)
    ensures
        r matches Ok(Some(t)) ==> t@ == (AstLanguage::Lua, source@),
{
    let mut parser = tree_sitter::Parser::new();
    parser.set_language(&tree_sitter_lua::LANGUAGE.into()).map_err(|error| error.to_string())?;
    Ok(parser.parse(source, None).map(|tree| ParsedTree { tree, language: AstLanguage::Lua, source: source.to_string() }))
}

/// Parses `source` with the Tree-sitter grammar of `language`.
fn parse_with_grammar(language: AstLanguage, source: &str) -> (r: Result<Option<ParsedTree>, String>)
    ensures
        r matches Ok(Some(t)) ==> t@ == (language, source@),
{
    match language {
        AstLanguage::Rust => ts_parse_rust(source),
        AstLanguage::Python => ts_parse_python(source),
        AstLanguage::JavaScript => ts_parse_javascript(source),
        AstLanguage::TypeScript => ts_parse_typescript(source),
        AstLanguage::Tsx => ts_parse_tsx(source),
        AstLanguage::Go => ts_parse_go(source),
        AstLanguage::Scala => ts_parse_scala(source),
        AstLanguage::Java => ts_parse_java(source),
        AstLanguage::Kotlin => ts_parse_kotlin(source),
        AstLanguage::Lua => ts_parse_lua(source),
    }
}

/// `tree_sitter::Node::descendant_count` of the tree's root.
#[verifier::external_body]
fn ts_node_count(tree: &ParsedTree) -> (r: usize)
    ensures
        r == ts_node_total(tree@.0, tree@.1),
{
    tree.tree.root_node().descendant_count()
}

/// `tree_sitter::TreeCursor::goto_descendant` from the root to node `index`, then the node's
/// properties, the cursor's `field_name` and its `depth`.
#[verifier::external_body]
fn ts_node_at(tree: &ParsedTree, index: usize) -> (r: RawNode)
    requires
        index < ts_node_total(tree@.0, tree@.1),
    ensures
        r@ == ts_raw_node(tree@.0, tree@.1, index as int),
{
    let mut cursor = tree.tree.walk();
    cursor.goto_descendant(index);
    let (node, field) = (cursor.node(), cursor.field_name().map(|f| f.chars().collect()));
    let (start, end) = (node.start_position(), node.end_position());
    RawNode { kind: node.kind().chars().collect(), field, depth: cursor.depth() as usize,
        start_byte: node.start_byte(), end_byte: node.end_byte(), start_row: start.row,
        start_column: start.column, end_row: end.row, end_column: end.column,
        is_named: node.is_named(), is_error: node.is_error(), is_missing: node.is_missing(),
        has_error: node.has_error() }
}

/// One node of a syntax tree.
#[derive(Debug, Clone)]
pub struct SyntaxNode {
    pub kind: Vec<char>,
    /// The field under which the node hangs from its parent.
    pub field: Option<Vec<char>>,
    /// Character offsets of the node's text.
    pub start: usize,
    pub end: usize,
    pub start_row: usize,
    pub start_column: usize,
    pub end_row: usize,
    pub end_column: usize,
    pub is_named: bool,
    pub is_error: bool,
    pub is_missing: bool,
    pub has_error: bool,
    pub parent: Option<usize>,
    /// Indices of the children, in source order; each is greater than this node's index.
    pub children: Vec<usize>,
}

/// A source text with the nodes of its parse tree; node `0` is the root.
#[derive(Debug, Clone)]
pub struct SyntaxTree {
    pub source: Vec<char>,
    pub nodes: Vec<SyntaxNode>,
}

impl SyntaxTree {
    /// Node ranges lie within the source; children follow their parent and point back to it.
    pub open spec fn wf(&self) -> bool {
        &&& self.nodes@.len() > 0
        &&& forall|i: int|
            0 <= i < self.nodes@.len() ==> #[trigger] self.nodes@[i].start <= self.nodes@[i].end
                <= self.source@.len()
        &&& forall|i: int, k: int|
            0 <= i < self.nodes@.len() && 0 <= k < self.nodes@[i].children@.len() ==> i
                < #[trigger] self.nodes@[i].children@[k] < self.nodes@.len()
        &&& forall|i: int|
            0 <= i < self.nodes@.len() ==> match #[trigger] self.nodes@[i].parent {
                Some(p) => p < i,
                None => true,
            }
        &&& forall|i: int, k: int|
            0 <= i < self.nodes@.len() && 0 < k < self.nodes@[i].children@.len() ==> #[trigger] self.nodes@[i].children@[k
                - 1] < self.nodes@[i].children@[k]
    }

    pub open spec fn valid_node(&self, n: usize) -> bool {
        n < self.nodes@.len()
    }

    /// The kind of node `n` as characters.
    pub open spec fn kind_of(&self, n: usize) -> Seq<char> {
        self.nodes@[n as int].kind@
    }

    /// Whether node `n` is of kind `kind`.
    pub fn kind_is(&self, n: usize, kind: &str) -> (r: bool)
        requires
            self.valid_node(n),
        ensures
            r == (self.kind_of(n) == kind@),
    {
        let k = chars_of(kind);
        chars_eq(&self.nodes[n].kind, &k)
    }

    /// Whether node `c` hangs from its parent under the field `field`.
    pub open spec fn field_is(&self, c: usize, field: Seq<char>) -> bool {
        self.nodes@[c as int].field matches Some(f) && f@ == field
    }

    /// The first of the children of `n` from position `k` on that hangs under `field`.
    pub open spec fn field_child_from(&self, n: usize, field: Seq<char>, k: int) -> Option<usize>
        decreases self.nodes@[n as int].children@.len() - k,
    {
        let children = self.nodes@[n as int].children@;
        if k < 0 || k >= children.len() {
            None
        } else if self.field_is(children[k], field) {
            Some(children[k])
        } else {
            self.field_child_from(n, field, k + 1)
        }
    }

    /// The first child of `n` under the field `field`.
    pub open spec fn field_child(&self, n: usize, field: Seq<char>) -> Option<usize> {
        self.field_child_from(n, field, 0)
    }

    proof fn lemma_field_child_from(&self, n: usize, field: Seq<char>, k: int)
        requires
            self.wf(),
            self.valid_node(n),
        ensures
            self.field_child_from(n, field, k) matches Some(c) ==> n < c < self.nodes@.len(),
        decreases self.nodes@[n as int].children@.len() - k,
    {
        let children = self.nodes@[n as int].children@;
        if 0 <= k < children.len() && !self.field_is(children[k], field) {
            self.lemma_field_child_from(n, field, k + 1);
        }
    }

    /// A field child of a node comes after it.
    pub proof fn lemma_field_child(&self, n: usize, field: Seq<char>)
        requires
            self.wf(),
            self.valid_node(n),
        ensures
            self.field_child(n, field) matches Some(c) ==> n < c < self.nodes@.len(),
    {
        self.lemma_field_child_from(n, field, 0);
    }

    /// The first child of `n` under the field `field`.
    pub fn child_by_field(&self, n: usize, field: &str) -> (r: Option<usize>)
        requires
            self.wf(),
            self.valid_node(n),
        ensures
            r matches Some(c) ==> (exists|k: int|
                0 <= k < self.nodes@[n as int].children@.len() && self.nodes@[n as int].children@[k]
                    == c && self.field_is(c, field@) && (forall|j: int|
                    0 <= j < k ==> !self.field_is(#[trigger] self.nodes@[n as int].children@[j], field@))),
            r is None ==> forall|k: int|
                0 <= k < self.nodes@[n as int].children@.len() ==> !self.field_is(
                    #[trigger] self.nodes@[n as int].children@[k],
                    field@,
                ),
            r matches Some(c) ==> n < c < self.nodes@.len(),
            r == self.field_child(n, field@),
    {
        let f = chars_of(field);
        let children = &self.nodes[n].children;
        let mut k: usize = 0;
        while k < children.len()
            invariant
                self.wf(),
                n < self.nodes@.len(),
                children@ == self.nodes@[n as int].children@,
                k <= children@.len(),
                forall|j: int| 0 <= j < k ==> !self.field_is(#[trigger] children@[j], f@),
                f@ == field@,
                self.field_child(n, field@) == self.field_child_from(n, field@, k as int),
            decreases children.len() - k,
        {
            let c = children[k];
            assert(n < c < self.nodes@.len());
            match &self.nodes[c].field {
                Some(g) => {
                    if chars_eq(g, &f) {
                        return Some(c);
                    }
                },
                None => {},
            }
            k = k + 1;
        }
        None
    }

    /// The named children of `n`, in order.
    pub open spec fn named_children_spec(&self, n: usize) -> Seq<usize> {
        self.nodes@[n as int].children@.filter(|c: usize| self.nodes@[c as int].is_named)
    }

    /// The named children of `n`, in order.
    pub fn named_children(&self, n: usize) -> (r: Vec<usize>)
        requires
            self.wf(),
            self.valid_node(n),
        ensures
            forall|k: int| 0 <= k < r@.len() ==> n < #[trigger] r@[k] < self.nodes@.len(),
            r@ == self.named_children_spec(n),
    {
        let children = &self.nodes[n].children;
        let ghost pred = |c: usize| self.nodes@[c as int].is_named;
        let mut r: Vec<usize> = Vec::new();
        let mut k: usize = 0;
        while k < children.len()
            invariant
                self.wf(),
                n < self.nodes@.len(),
                children@ == self.nodes@[n as int].children@,
                k <= children@.len(),
                pred == (|c: usize| self.nodes@[c as int].is_named),
                r@ == children@.subrange(0, k as int).filter(pred),
                forall|j: int| 0 <= j < r@.len() ==> n < #[trigger] r@[j] < self.nodes@.len(),
            decreases children.len() - k,
        {
            let c = children[k];
            assert(n < c < self.nodes@.len());
            proof {
                let s = children@.subrange(0, k + 1);
                assert(s.drop_last() =~= children@.subrange(0, k as int));
                reveal_with_fuel(Seq::filter, 1);
            }
            if self.nodes[c].is_named {
                r.push(c);
            }
            k = k + 1;
        }
        assert(children@.subrange(0, children@.len() as int) =~= children@);
        r
    }

    /// All children of `n`, in order.
    pub fn children_of(&self, n: usize) -> (r: &[usize])
        requires
            self.wf(),
            self.valid_node(n),
        ensures
            r@ == self.nodes@[n as int].children@,
            forall|k: int| 0 <= k < r@.len() ==> n < #[trigger] r@[k] < self.nodes@.len(),
    {
        self.nodes[n].children.as_slice()
    }

    /// The named child of `p` seen last before `n`, scanning the children of `p` from position
    /// `k` on, with `previous` the named child seen last before position `k`.
    pub open spec fn prev_named_from(&self, p: usize, n: usize, k: int, previous: Option<usize>) -> Option<
        usize,
    >
        decreases self.nodes@[p as int].children@.len() - k,
    {
        let children = self.nodes@[p as int].children@;
        if k < 0 || k >= children.len() {
            None
        } else if children[k] == n {
            previous
        } else {
            self.prev_named_from(
                p,
                n,
                k + 1,
                if self.nodes@[children[k] as int].is_named {
                    Some(children[k])
                } else {
                    previous
                },
            )
        }
    }

    /// The named sibling just before `n` under its parent, if there is one.
    pub open spec fn prev_named_sibling_spec(&self, n: usize) -> Option<usize> {
        match self.nodes@[n as int].parent {
            Some(p) => self.prev_named_from(p, n, 0, None),
            None => None,
        }
    }

    proof fn lemma_prev_named_from(&self, p: usize, n: usize, k: int, previous: Option<usize>)
        requires
            self.wf(),
            p < self.nodes@.len(),
            0 <= k,
            previous matches Some(x) ==> k > 0 && k <= self.nodes@[p as int].children@.len() && x
                <= self.nodes@[p as int].children@[k - 1] && self.nodes@[x as int].is_named && x
                < self.nodes@.len(),
        ensures
            self.prev_named_from(p, n, k, previous) matches Some(x) ==> x < n && x
                < self.nodes@.len() && self.nodes@[x as int].is_named,
        decreases self.nodes@[p as int].children@.len() - k,
    {
        let children = self.nodes@[p as int].children@;
        if k < children.len() && children[k] != n {
            if k > 0 {
                assert(children[k - 1] < children[k]);
            }
            assert(p < children[k] < self.nodes@.len());
            self.lemma_prev_named_from(
                p,
                n,
                k + 1,
                if self.nodes@[children[k] as int].is_named {
                    Some(children[k])
                } else {
                    previous
                },
            );
        } else if k < children.len() {
            if k > 0 {
                assert(children[k - 1] < children[k]);
            }
        }
    }

    /// The named sibling before a node comes before it.
    pub proof fn lemma_prev_named_sibling(&self, n: usize)
        requires
            self.wf(),
            self.valid_node(n),
        ensures
            self.prev_named_sibling_spec(n) matches Some(s) ==> s < n && self.valid_node(s)
                && self.nodes@[s as int].is_named,
    {
        match self.nodes@[n as int].parent {
            Some(p) => {
                assert(p < n);
                self.lemma_prev_named_from(p, n, 0, None);
            },
            None => {},
        }
    }

    /// The named sibling just before `n` under its parent.
    pub fn prev_named_sibling(&self, n: usize) -> (r: Option<usize>)
        requires
            self.wf(),
            self.valid_node(n),
        ensures
            r == self.prev_named_sibling_spec(n),
            r matches Some(s) ==> s < n && self.valid_node(s) && self.nodes@[s as int].is_named,
    {
        proof {
            self.lemma_prev_named_sibling(n);
        }
        let parent = match self.nodes[n].parent {
            Some(p) => p,
            None => return None,
        };
        assert(parent < n);
        let children = &self.nodes[parent].children;
        let mut k: usize = 0;
        let mut previous: Option<usize> = None;
        while k < children.len()
            invariant
                self.wf(),
                parent < self.nodes@.len(),
                n < self.nodes@.len(),
                self.nodes@[n as int].parent == Some(parent),
                self.prev_named_sibling_spec(n) matches Some(s) ==> s < n && s < self.nodes@.len()
                    && self.nodes@[s as int].is_named,
                children@ == self.nodes@[parent as int].children@,
                k <= children@.len(),
                self.prev_named_from(parent, n, k as int, previous) == self.prev_named_sibling_spec(n),
            decreases children.len() - k,
        {
            let c = children[k];
            if c == n {
                return previous;
            }
            assert(parent < c < self.nodes@.len());
            if self.nodes[c].is_named {
                previous = Some(c);
            }
            k = k + 1;
        }
        None
    }

    /// The text of node `n` with surrounding white space trimmed.
    pub fn trimmed_node_text(&self, n: usize) -> (r: Vec<char>)
        requires
            self.wf(),
            self.valid_node(n),
        ensures
            r@ == crate::text::trimmed(
                self.source@.subrange(self.nodes@[n as int].start as int, self.nodes@[n as int].end as int),
            ),
    {
        crate::text::trimmed_range(&self.source, self.nodes[n].start, self.nodes[n].end)
    }
}

/// Number of UTF-8 bytes of a character.
pub open spec fn utf8_width(c: char) -> int {
    let v = c as u32;
    if v < 0x80 {
        1
    } else if v < 0x800 {
        2
    } else if v < 0x10000 {
        3
    } else {
        4
    }
}

pub fn char_utf8_width(c: char) -> (w: usize)
    ensures
        w == utf8_width(c),
{
    let v = c as u32;
    if v < 0x80 {
        1
    } else if v < 0x800 {
        2
    } else if v < 0x10000 {
        3
    } else {
        4
    }
}

/// The nodes of the tree that Tree-sitter parses `source` into with the grammar of `language`.
pub open spec fn raw_nodes(language: AstLanguage, source: Seq<char>) -> Seq<RawNodeView> {
    Seq::new(ts_node_total(language, source) as nat, |i: int| ts_raw_node(language, source, i))
}

/// The last of the nodes up to `j` at `depth`.
pub open spec fn last_at_depth(raws: Seq<RawNodeView>, depth: int, j: int) -> Option<int>
    decreases j + 1,
{
    if j < 0 {
        None
    } else if raws[j].depth == depth {
        Some(j)
    } else {
        last_at_depth(raws, depth, j - 1)
    }
}

/// The parent of node `i` in pre-order: the last node before it one level up.
pub open spec fn raw_parent(raws: Seq<RawNodeView>, i: int) -> Option<usize> {
    if i <= 0 {
        None
    } else {
        match last_at_depth(raws, raws[i].depth - 1, i - 1) {
            Some(p) => Some(p as usize),
            None => None,
        }
    }
}

/// A node's field as characters.
pub open spec fn field_view(field: Option<Vec<char>>) -> Option<Seq<char>> {
    match field {
        Some(f) => Some(f@),
        None => None,
    }
}

/// Whether `node` copies the node `raw` of the parse tree of `source`: the same kind, field,
/// points and flags, and character offsets that start at the node's byte offsets.
pub open spec fn copies_raw(node: SyntaxNode, raw: RawNodeView, source: Seq<char>) -> bool {
    &&& node.kind@ == raw.kind
    &&& field_view(node.field) == raw.field
    &&& node.start <= source.len() && crate::matchers::byte_offset(source, node.start as int)
        == raw.start_byte
    &&& node.end <= source.len() && crate::matchers::byte_offset(source, node.end as int)
        == raw.end_byte
    &&& node.start_row == raw.start_row && node.start_column == raw.start_column
    &&& node.end_row == raw.end_row && node.end_column == raw.end_column
    &&& node.is_named == raw.is_named && node.is_error == raw.is_error
    &&& node.is_missing == raw.is_missing && node.has_error == raw.has_error
}

/// Whether `tree` is the copy of the tree that Tree-sitter parses `source` into with the
/// grammar of `language`: its nodes, in pre-order, copy Tree-sitter's, each hung from the node
/// that Tree-sitter's depths make its parent.
pub open spec fn parsed_tree(language: AstLanguage, source: Seq<char>, tree: SyntaxTree) -> bool {
    let raws = raw_nodes(language, source);
    &&& tree.source@ == source
    &&& tree.nodes@.len() == raws.len()
    &&& forall|i: int|
        0 <= i < raws.len() ==> copies_raw(#[trigger] tree.nodes@[i], raws[i], source)
            && tree.nodes@[i].parent == raw_parent(raws, i)
}

proof fn lemma_last_at_depth(raws: Seq<RawNodeView>, depth: int, s: int, j: int)
    requires
        0 <= s <= j < raws.len(),
        raws[s].depth == depth,
        forall|x: int| s < x <= j ==> (#[trigger] raws[x]).depth != depth,
    ensures
        last_at_depth(raws, depth, j) == Some(s),
    decreases j - s,
{
    if j > s {
        lemma_last_at_depth(raws, depth, s, j - 1);
    }
}

/// The character offset that starts at byte offset `b`, if any.
fn char_at_byte(offsets: &Vec<usize>, bytes: &Vec<usize>, source: Ghost<Seq<char>>, b: usize) -> (r:
    Option<usize>)
    requires
        bytes@.len() == source@.len() + 1,
        forall|c: int|
            0 <= c <= source@.len() ==> #[trigger] bytes@[c] == crate::matchers::byte_offset(source@, c),
        forall|x: int| 0 <= x < offsets@.len() ==> #[trigger] offsets@[x] <= source@.len(),
    ensures
        r matches Some(c) ==> c <= source@.len() && crate::matchers::byte_offset(source@, c as int) == b,
{
    if b < offsets.len() {
        let c = offsets[b];
        if bytes[c] == b {
            return Some(c);
        }
    }
    None
}

/// Whether `a` is `b` with other children.
pub open spec fn same_but_children(a: SyntaxNode, b: SyntaxNode) -> bool {
    a == SyntaxNode { children: a.children, ..b }
}

/// Appends a node as the last child of `parent` and returns its index.
fn add_child(nodes: &mut Vec<SyntaxNode>, parent: usize, node: SyntaxNode, source_len: usize) -> (r:
    usize)
    requires
        parent < old(nodes)@.len(),
        node.start <= node.end <= source_len,
        node.children@.len() == 0,
        node.parent == Some(parent),
        tree_nodes_wf(old(nodes)@, source_len as int),
    ensures
        r == old(nodes)@.len(),
        final(nodes)@.len() == old(nodes)@.len() + 1,
        tree_nodes_wf(final(nodes)@, source_len as int),
        final(nodes)@[r as int] == node,
        forall|j: int|
            0 <= j < old(nodes)@.len() ==> same_but_children(
                #[trigger] final(nodes)@[j],
                old(nodes)@[j],
            ),
{
    let index = nodes.len();
    let ghost o = nodes@;
    nodes.push(node);
    let ghost pushed = nodes@;
    assert(pushed == o.push(node));
    let mut p = nodes.remove(parent);
    assert(p == pushed[parent as int]);
    let ghost old_children = p.children@;
    p.children.push(index);
    assert(p.children@ == old_children.push(index));
    nodes.insert(parent, p);
    proof {
        let ns = nodes@;
        assert(ns.len() == o.len() + 1);
        assert(ns[parent as int] == p);
        assert(ns[index as int] == node);
        assert forall|i: int| 0 <= i < ns.len() && i != parent && i != index implies ns[i]
            == o[i] by {
            assert(ns[i] == pushed[i]);
        }
        assert forall|i: int, k: int|
            0 <= i < ns.len() && 0 <= k < ns[i].children@.len() implies i
            < #[trigger] ns[i].children@[k] < ns.len() by {
            if i == parent {
                if k < ns[i].children@.len() - 1 {
                    assert(ns[i].children@[k] == old(nodes)@[i].children@[k]);
                }
            } else if i < index {
                assert(ns[i] == old(nodes)@[i]);
            }
        }
        assert forall|i: int, k: int|
            0 <= i < ns.len() && 0 < k < ns[i].children@.len() implies #[trigger] ns[i].children@[k - 1]
            < ns[i].children@[k] by {
            if i == parent {
                let oc = old(nodes)@[i].children@;
                if k < ns[i].children@.len() - 1 {
                    assert(ns[i].children@[k] == oc[k] && ns[i].children@[k - 1] == oc[k - 1]);
                } else {
                    assert(ns[i].children@[k - 1] == oc[k - 1]);
                    assert(oc[k - 1] < old(nodes)@.len());
                }
            } else if i < index {
                assert(ns[i] == old(nodes)@[i]);
            }
        }
        assert forall|i: int| 0 <= i < ns.len() implies #[trigger] ns[i].start <= ns[i].end
            <= source_len by {
            if i != parent && i < index {
                assert(ns[i] == old(nodes)@[i]);
            }
        }
        assert forall|i: int| 0 <= i < ns.len() implies match #[trigger] ns[i].parent {
            Some(p) => p < i,
            None => true,
        } by {
            if i != parent && i < index {
                assert(ns[i] == old(nodes)@[i]);
            }
        }
        assert forall|j: int| 0 <= j < o.len() implies same_but_children(
            #[trigger] ns[j],
            old(nodes)@[j],
        ) by {
            if j != parent {
                assert(ns[j] == old(nodes)@[j]);
            }
        }
    }
    index
}

pub open spec fn tree_nodes_wf(nodes: Seq<SyntaxNode>, len: int) -> bool {
    &&& nodes.len() > 0
    &&& forall|i: int| 0 <= i < nodes.len() ==> #[trigger] nodes[i].start <= nodes[i].end <= len
    &&& forall|i: int, k: int|
        0 <= i < nodes.len() && 0 <= k < nodes[i].children@.len() ==> i
            < #[trigger] nodes[i].children@[k] < nodes.len()
    &&& forall|i: int|
        0 <= i < nodes.len() ==> match #[trigger] nodes[i].parent {
            Some(p) => p < i,
            None => true,
        }
    &&& forall|i: int, k: int|
        0 <= i < nodes.len() && 0 < k < nodes[i].children@.len() ==> #[trigger] nodes[i].children@[k - 1]
            < nodes[i].children@[k]
}

/// Parses `source` with the grammar of `language` and copies the parse tree.
pub fn parse_syntax_tree(language: AstLanguage, name: &str, source: &str) -> (r: Result<
    SyntaxTree,
    SmartEditError,
>)
    ensures
        r matches Ok(tree) ==> tree.wf() && parsed_tree(language, source@, tree),
        r matches Err(e) ==> (e is AstParseSetupFailed || e is AstParseFailed),
{
    let parsed = match parse_with_grammar(language, source) {
        Ok(Some(tree)) => tree,
        Ok(None) => {
            return Err(
                SmartEditError::AstParseFailed {
                    language: name.to_string(),
                    message: "tree-sitter returned no parse tree".to_string(),
                },
            );
        },
        Err(message) => {
            return Err(SmartEditError::AstParseSetupFailed { language: name.to_string(), message });
        },
    };
    let inconsistent = SmartEditError::AstParseFailed {
        language: name.to_string(),
        message: "tree-sitter returned a node outside the source".to_string(),
    };
    let chars = chars_of(source);
    let source_len = chars.len();
    let offsets = crate::matchers::char_offsets_by_byte(&chars);
    proof {
        crate::matchers::lemma_byte_offset_nonneg(chars@, chars@.len() as int);
        assert(chars@.subrange(0, chars@.len() as int) =~= chars@);
    }
    let bytes = crate::matchers::byte_offsets_of(&chars, offsets.len() - 1);
    let count = ts_node_count(&parsed);
    let ghost raws = raw_nodes(language, source@);
    let mut nodes: Vec<SyntaxNode> = Vec::new();
    let mut stack: Vec<usize> = Vec::new();
    let mut i: usize = 0;
    while i < count
        invariant
            parsed@ == (language, source@),
            count == ts_node_total(language, source@),
            raws == raw_nodes(language, source@),
            chars@ == source@,
            source_len == chars@.len(),
            bytes@.len() == chars@.len() + 1,
            forall|c: int|
                0 <= c <= chars@.len() ==> #[trigger] bytes@[c] == crate::matchers::byte_offset(chars@, c),
            forall|x: int| 0 <= x < offsets@.len() ==> #[trigger] offsets@[x] <= chars@.len(),
            inconsistent is AstParseFailed,
            i <= count,
            nodes@.len() == i,
            i > 0 ==> tree_nodes_wf(nodes@, source_len as int),
            forall|j: int|
                0 <= j < i ==> copies_raw(#[trigger] nodes@[j], raws[j], source@) && nodes@[j].parent
                    == raw_parent(raws, j),
            i > 0 ==> stack@.len() == raws[i - 1].depth + 1,
            i == 0 ==> stack@.len() == 0,
            forall|d: int|
                0 <= d < stack@.len() ==> #[trigger] stack@[d] < i && raws[stack@[d] as int].depth == d
                    && forall|x: int| stack@[d] < x < i ==> (#[trigger] raws[x]).depth > d,
        decreases count - i,
    {
        let raw = ts_node_at(&parsed, i);
        assert(raw@ == raws[i as int]);
        let start = match char_at_byte(&offsets, &bytes, Ghost(chars@), raw.start_byte) {
            Some(c) => c,
            None => return Err(inconsistent),
        };
        let end = match char_at_byte(&offsets, &bytes, Ghost(chars@), raw.end_byte) {
            Some(c) => c,
            None => return Err(inconsistent),
        };
        if start > end {
            return Err(inconsistent);
        }
        let depth = raw.depth;
        let parent = if i == 0 {
            if depth != 0 {
                return Err(inconsistent);
            }
            None
        } else {
            if depth == 0 || depth > stack.len() {
                return Err(inconsistent);
            }
            let p = stack[depth - 1];
            proof {
                lemma_last_at_depth(raws, depth - 1, p as int, i - 1);
            }
            Some(p)
        };
        let node = SyntaxNode {
            kind: raw.kind,
            field: raw.field,
            start,
            end,
            start_row: raw.start_row,
            start_column: raw.start_column,
            end_row: raw.end_row,
            end_column: raw.end_column,
            is_named: raw.is_named,
            is_error: raw.is_error,
            is_missing: raw.is_missing,
            has_error: raw.has_error,
            parent,
            children: Vec::new(),
        };
        assert(copies_raw(node, raws[i as int], source@));
        let ghost before = nodes@;
        match parent {
            None => {
                nodes.push(node);
                assert(nodes@[0].parent is None);
            },
            Some(p) => {
                add_child(&mut nodes, p, node, source_len);
                proof {
                    assert forall|j: int| 0 <= j < i implies copies_raw(
                        #[trigger] nodes@[j],
                        raws[j],
                        source@,
                    ) && nodes@[j].parent == raw_parent(raws, j) by {
                        assert(same_but_children(nodes@[j], before[j]));
                    }
                }
            },
        }
        let ghost old_stack = stack@;
        stack.truncate(depth);
        stack.push(i);
        proof {
            assert forall|d: int| 0 <= d < stack@.len() implies #[trigger] stack@[d] < i + 1
                && raws[stack@[d] as int].depth == d && forall|x: int|
                stack@[d] < x < i + 1 ==> (#[trigger] raws[x]).depth > d by {
                if d < depth {
                    assert(stack@[d] == old_stack[d]);
                }
            }
        }
        i = i + 1;
    }
    if i == 0 {
        return Err(inconsistent);
    }
    Ok(SyntaxTree { source: chars, nodes })
}

} // verus!
