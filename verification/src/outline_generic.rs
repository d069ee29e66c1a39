//! Outlines of Scala, Java, Kotlin and Lua source files: their classes, objects, traits,
//! interfaces, enums and functions, found at any depth.
use vstd::prelude::*;

use crate::outline::{
    first_syntax_error, mark_overlapping_sibling_locations, opt_seq, siblings_marked,
    AstItem, AstItemKind, AstLanguage, FileAst,
};
use crate::outline_common::{
    child_text_by_field, location_for_node, make_item, name_or_anonymous, node_location,
    node_text_spec, signature_spec, signature_text_with_body, ItemParts,
};
use crate::syntax::SyntaxTree;
use crate::text::{chars_of, push_all};

verus! {

/// A language whose outline lists its declarations generically.
#[derive(Debug, Clone, Copy, PartialEq, Eq, Structural)]
pub enum GenericLanguage {
    Scala,
    Java,
    Kotlin,
    Lua,
}

/// The kind of item that a node of kind `kind` declares in a language, and the word its
/// summary starts with.
pub open spec fn classify_spec(kind: Seq<char>, language: GenericLanguage) -> Option<
    (AstItemKind, Seq<char>),
> {
    match language {
        GenericLanguage::Scala => if kind == "class_definition"@ {
            Some((AstItemKind::Class, "class"@))
        } else if kind == "object_definition"@ {
            Some((AstItemKind::Class, "object"@))
        } else if kind == "trait_definition"@ {
            Some((AstItemKind::Trait, "trait"@))
        } else if kind == "function_definition"@ {
            Some((AstItemKind::Function, "def"@))
        } else {
            None
        },
        GenericLanguage::Java => if kind == "class_declaration"@ || kind == "record_declaration"@ {
            Some((AstItemKind::Class, "class"@))
        } else if kind == "interface_declaration"@ || kind == "annotation_type_declaration"@ {
            Some((AstItemKind::Interface, "interface"@))
        } else if kind == "enum_declaration"@ {
            Some((AstItemKind::Enum, "enum"@))
        } else if kind == "method_declaration"@ || kind == "constructor_declaration"@ {
            Some((AstItemKind::Function, "method"@))
        } else {
            None
        },
        GenericLanguage::Kotlin => if kind == "class_declaration"@ {
            Some((AstItemKind::Class, "class"@))
        } else if kind == "object_declaration"@ {
            Some((AstItemKind::Class, "object"@))
        } else if kind == "function_declaration"@ {
            Some((AstItemKind::Function, "fun"@))
        } else {
            None
        },
        GenericLanguage::Lua => if kind == "function_declaration"@ || kind
            == "local_function_declaration"@ {
            Some((AstItemKind::Function, "function"@))
        } else {
            None
        },
    }
}

/// The word that the summary of a declaration of kind `kind` starts with.
pub open spec fn classify_word(kind: Seq<char>, language: GenericLanguage) -> Seq<char> {
    match classify_spec(kind, language) {
        Some((_, word)) => word,
        None => Seq::empty(),
    }
}

/// The kind of item that a node declares in a language, and the word its summary starts with.
fn classify(tree: &SyntaxTree, n: usize, language: GenericLanguage) -> (r: Option<(AstItemKind, &'static str)>)
    requires
        tree.wf(),
        tree.valid_node(n),
    ensures
        match classify_spec(tree.kind_of(n), language) {
            Some((kind, word)) => r matches Some((k, w)) && k == kind && w@ == word,
            None => r is None,
        },
{
    match language {
        GenericLanguage::Scala => if tree.kind_is(n, "class_definition") {
            Some((AstItemKind::Class, "class"))
        } else if tree.kind_is(n, "object_definition") {
            Some((AstItemKind::Class, "object"))
        } else if tree.kind_is(n, "trait_definition") {
            Some((AstItemKind::Trait, "trait"))
        } else if tree.kind_is(n, "function_definition") {
            Some((AstItemKind::Function, "def"))
        } else {
            None
        },
        GenericLanguage::Java => if tree.kind_is(n, "class_declaration") || tree.kind_is(
            n,
            "record_declaration",
        ) {
            Some((AstItemKind::Class, "class"))
        } else if tree.kind_is(n, "interface_declaration") || tree.kind_is(
            n,
            "annotation_type_declaration",
        ) {
            Some((AstItemKind::Interface, "interface"))
        } else if tree.kind_is(n, "enum_declaration") {
            Some((AstItemKind::Enum, "enum"))
        } else if tree.kind_is(n, "method_declaration") || tree.kind_is(
            n,
            "constructor_declaration",
        ) {
            Some((AstItemKind::Function, "method"))
        } else {
            None
        },
        GenericLanguage::Kotlin => if tree.kind_is(n, "class_declaration") {
            Some((AstItemKind::Class, "class"))
        } else if tree.kind_is(n, "object_declaration") {
            Some((AstItemKind::Class, "object"))
        } else if tree.kind_is(n, "function_declaration") {
            Some((AstItemKind::Function, "fun"))
        } else {
            None
        },
        GenericLanguage::Lua => if tree.kind_is(n, "function_declaration") || tree.kind_is(
            n,
            "local_function_declaration",
        ) {
            Some((AstItemKind::Function, "function"))
        } else {
            None
        },
    }
}

/// The first of the children of `n` from position `k` on that is a type or simple identifier.
pub open spec fn first_identifier_child(tree: SyntaxTree, n: usize, k: int) -> Option<usize>
    decreases tree.nodes@[n as int].children@.len() - k,
{
    let children = tree.nodes@[n as int].children@;
    if k < 0 || k >= children.len() {
        None
    } else if tree.kind_of(children[k]) == "type_identifier"@ || tree.kind_of(children[k])
        == "simple_identifier"@ {
        Some(children[k])
    } else {
        first_identifier_child(tree, n, k + 1)
    }
}

/// The name of a declaration: the text of its `name` field (in Kotlin, of its `identifier`
/// field or of its first type or simple identifier), or `<anonymous>`.
pub open spec fn declaration_name_spec(tree: SyntaxTree, n: usize, language: GenericLanguage) -> Seq<
    char,
> {
    if language == GenericLanguage::Kotlin {
        match tree.field_child(n, "identifier"@) {
            Some(c) => node_text_spec(tree, c),
            None => match first_identifier_child(tree, n, 0) {
                Some(c) => node_text_spec(tree, c),
                None => "<anonymous>"@,
            },
        }
    } else {
        match tree.field_child(n, "name"@) {
            Some(c) => node_text_spec(tree, c),
            None => "<anonymous>"@,
        }
    }
}

/// The name of a declaration: its `name` field (in Kotlin, its `identifier` field or its first
/// type or simple identifier).
fn declaration_name(tree: &SyntaxTree, n: usize, language: GenericLanguage) -> (r: Vec<char>)
    requires
        tree.wf(),
        tree.valid_node(n),
    ensures
        r@ == declaration_name_spec(*tree, n, language),
{
    if language == GenericLanguage::Kotlin {
        match child_text_by_field(tree, n, "identifier") {
            Some(name) => return name,
            None => {},
        }
        let children = tree.children_of(n);
        let mut k: usize = 0;
        while k < children.len()
            invariant
                tree.wf(),
                n < tree.nodes@.len(),
                children@ == tree.nodes@[n as int].children@,
                forall|j: int| 0 <= j < children@.len() ==> n < #[trigger] children@[j] < tree.nodes@.len(),
                first_identifier_child(*tree, n, 0) == first_identifier_child(*tree, n, k as int),
                tree.field_child(n, "identifier"@) is None,
                language == GenericLanguage::Kotlin,
            decreases children.len() - k,
        {
            let c = children[k];
            if tree.kind_is(c, "type_identifier") || tree.kind_is(c, "simple_identifier") {
                return tree.trimmed_node_text(c);
            }
            k = k + 1;
        }
        return chars_of("<anonymous>");
    }
    name_or_anonymous(child_text_by_field(tree, n, "name"))
}

/// The nodes below `n` that declare items: each named child that declares one, and what any
/// other named child holds, in order.
pub open spec fn generic_decls(tree: SyntaxTree, n: usize, language: GenericLanguage) -> Seq<usize>
    decreases tree.nodes@.len() - n, 1nat, 0nat,
{
    generic_decls_upto(tree, n, language, tree.named_children_spec(n).len())
}

/// What the first `k` named children of `n` yield.
pub open spec fn generic_decls_upto(tree: SyntaxTree, n: usize, language: GenericLanguage, k: nat) -> Seq<
    usize,
>
    decreases tree.nodes@.len() - n, 0nat, k,
{
    let children = tree.named_children_spec(n);
    if k == 0 || k > children.len() || n >= tree.nodes@.len() {
        Seq::empty()
    } else {
        let c = children[k - 1];
        let before = generic_decls_upto(tree, n, language, (k - 1) as nat);
        if classify_spec(tree.kind_of(c), language) is Some {
            before.push(c)
        } else if n < c < tree.nodes@.len() {
            before + generic_decls(tree, c, language)
        } else {
            before
        }
    }
}

/// Whether `item` is the item that node `n` declares: its kind and summary word, its name,
/// its location, its signature and body (a Lua function shows its whole text as its
/// signature and has no body), and as children the items of its body.
pub open spec fn generic_item_is(item: AstItem, tree: SyntaxTree, n: usize, language: GenericLanguage) -> bool
    decreases item, 1nat, 0nat,
{
    match classify_spec(tree.kind_of(n), language) {
        Some((kind, word)) => {
            let name = declaration_name_spec(tree, n, language);
            let body = tree.field_child(n, "body"@);
            &&& item.kind == kind
            &&& opt_seq(item.name) == Some(name)
            &&& item.associated_type is None
            &&& node_location(tree, n, item.location)
            &&& item.docs is None && item.inner_docs is None
            &&& item.attributes is None && item.source_preamble is None
            &&& item.summary@ == word + seq![' '] + name
            &&& if language == GenericLanguage::Lua {
                &&& opt_seq(item.signature) == Some(node_text_spec(tree, n))
                &&& item.body is None
                &&& item.children@.len() == 0
            } else {
                &&& opt_seq(item.signature) == Some(signature_spec(tree, n, body))
                &&& match body {
                    Some(b) => {
                        &&& opt_seq(item.body) == Some(node_text_spec(tree, b))
                        &&& item.children@.len() == generic_decls(tree, b, language).len()
                        &&& generic_children_are(
                            item,
                            tree,
                            generic_decls(tree, b, language),
                            language,
                            item.children@.len() as nat,
                        )
                    },
                    None => item.body is None && item.children@.len() == 0,
                }
            }
        },
        None => false,
    }
}

/// Whether the first `k` children of `item` are the items that the nodes `decls` declare.
pub open spec fn generic_children_are(
    item: AstItem,
    tree: SyntaxTree,
    decls: Seq<usize>,
    language: GenericLanguage,
    k: nat,
) -> bool
    decreases item, 0nat, k,
{
    if k == 0 {
        true
    } else if k > item.children@.len() || k > decls.len() {
        false
    } else {
        proof {
            assert(decreases_to!(item => item.children@[k - 1]));
        }
        generic_children_are(item, tree, decls, language, (k - 1) as nat) && generic_item_is(
            item.children@[k - 1],
            tree,
            decls[k - 1],
            language,
        )
    }
}

/// Whether `items` are the items that the nodes `decls` declare.
pub open spec fn generic_items_are(
    items: Seq<AstItem>,
    tree: SyntaxTree,
    decls: Seq<usize>,
    language: GenericLanguage,
) -> bool {
    &&& items.len() == decls.len()
    &&& forall|k: int| 0 <= k < items.len() ==> generic_item_is(#[trigger] items[k], tree, decls[k], language)
}

proof fn lemma_generic_children_pointwise(
    item: AstItem,
    tree: SyntaxTree,
    decls: Seq<usize>,
    language: GenericLanguage,
    k: nat,
)
    requires
        k <= item.children@.len(),
        k <= decls.len(),
        forall|j: int| 0 <= j < k ==> generic_item_is(#[trigger] item.children@[j], tree, decls[j], language),
    ensures
        generic_children_are(item, tree, decls, language, k),
    decreases k,
{
    if k > 0 {
        lemma_generic_children_pointwise(item, tree, decls, language, (k - 1) as nat);
    }
}

/// The item that a node declares, with the items of its body as children. A Lua function
/// shows its whole text as its signature and has no body or children.
fn parse_generic_item(tree: &SyntaxTree, n: usize, language: GenericLanguage) -> (r: Option<AstItem>)
    requires
        tree.wf(),
        tree.valid_node(n),
    ensures
        r is Some <==> classify_spec(tree.kind_of(n), language) is Some,
        r matches Some(item) ==> generic_item_is(item, *tree, n, language),
    decreases tree.nodes@.len() - n, 1int,
{
    let (kind, word) = match classify(tree, n, language) {
        Some(c) => c,
        None => return None,
    };
    let name = declaration_name(tree, n, language);
    let mut summary = chars_of(word);
    summary.push(' ');
    push_all(&mut summary, &name);
    let location = location_for_node(tree, n);
    if language == GenericLanguage::Lua {
        let item_parts = ItemParts {
            kind,
            name: Some(name),
            associated_type: None,
            location,
            docs: None,
            inner_docs: None,
            attributes: None,
            source_preamble: None,
            summary,
            signature: Some(tree.trimmed_node_text(n)),
            body: None,
        };
        let item = make_item(item_parts, Vec::new());
        proof {
            assert(item.summary@ =~= classify_word(tree.kind_of(n), language) + seq![' ']
                + declaration_name_spec(*tree, n, language));
        }
        return Some(item);
    }
    let body = tree.child_by_field(n, "body");
    let item_parts = ItemParts {
        kind,
        name: Some(name),
        associated_type: None,
        location,
        docs: None,
        inner_docs: None,
        attributes: None,
        source_preamble: None,
        summary,
        signature: Some(signature_text_with_body(tree, n, body)),
        body: match body {
            Some(b) => Some(tree.trimmed_node_text(b)),
            None => None,
        },
    };
    let children = match body {
        Some(b) => collect_generic_items(tree, b, language),
        None => Vec::new(),
    };
    let item = make_item(item_parts, children);
    proof {
        assert(item.summary@ =~= classify_word(tree.kind_of(n), language) + seq![' ']
            + declaration_name_spec(*tree, n, language));
        match body {
            Some(b) => {
                lemma_generic_children_pointwise(
                    item,
                    *tree,
                    generic_decls(*tree, b, language),
                    language,
                    item.children@.len() as nat,
                );
            },
            None => {},
        }
    }
    Some(item)
}

/// The items below a node: a child that declares an item gives it; any other child is searched.
fn collect_generic_items(tree: &SyntaxTree, n: usize, language: GenericLanguage) -> (r: Vec<AstItem>)
    requires
        tree.wf(),
        tree.valid_node(n),
    ensures
        generic_items_are(r@, *tree, generic_decls(*tree, n, language), language),
    decreases tree.nodes@.len() - n, 0int,
{
    let children = tree.named_children(n);
    let mut items: Vec<AstItem> = Vec::new();
    let mut k: usize = 0;
    while k < children.len()
        invariant
            tree.wf(),
            n < tree.nodes@.len(),
            children@ == tree.named_children_spec(n),
            k <= children@.len(),
            forall|j: int| 0 <= j < children@.len() ==> n < #[trigger] children@[j] < tree.nodes@.len(),
            generic_items_are(items@, *tree, generic_decls_upto(*tree, n, language, k as nat), language),
        decreases children.len() - k,
    {
        let child = children[k];
        let ghost before = items@;
        let ghost prev = generic_decls_upto(*tree, n, language, k as nat);
        match parse_generic_item(tree, child, language) {
            Some(item) => {
                items.push(item);
                proof {
                    let next = generic_decls_upto(*tree, n, language, (k + 1) as nat);
                    assert(next == prev.push(child));
                    assert forall|j: int| 0 <= j < items@.len() implies generic_item_is(
                        #[trigger] items@[j],
                        *tree,
                        next[j],
                        language,
                    ) by {
                        if j < before.len() {
                            assert(items@[j] == before[j]);
                        }
                    }
                }
            },
            None => {
                let mut nested = collect_generic_items(tree, child, language);
                let ghost more = nested@;
                items.append(&mut nested);
                proof {
                    let next = generic_decls_upto(*tree, n, language, (k + 1) as nat);
                    let inner = generic_decls(*tree, child, language);
                    assert(next == prev + inner);
                    assert forall|j: int| 0 <= j < items@.len() implies generic_item_is(
                        #[trigger] items@[j],
                        *tree,
                        next[j],
                        language,
                    ) by {
                        if j < before.len() {
                            assert(items@[j] == before[j]);
                        } else {
                            assert(items@[j] == more[j - before.len()]);
                            assert(next[j] == inner[j - before.len()]);
                        }
                    }
                }
            },
        }
        k = k + 1;
    }
    items
}

/// Whether `items` are a file's top-level items: those that its declarations give, each marked
/// as not edit-ready where it shares a line with a sibling, and so on down their children.
pub open spec fn generic_outline(items: Seq<AstItem>, tree: SyntaxTree, language: GenericLanguage) -> bool {
    exists|collected: Seq<AstItem>|
        #[trigger] generic_items_are(collected, tree, generic_decls(tree, 0, language), language)
            && siblings_marked(collected, items)
}

/// The outline of a parsed Scala, Java, Kotlin or Lua file; it has no file docs.
pub fn generic_file_ast(tree: &SyntaxTree, language: AstLanguage, generic: GenericLanguage) -> (r: FileAst)
    requires
        tree.wf(),
    ensures
        r.language == language,
        r.has_errors == tree.nodes@[0].has_error,
        r.root_docs is None,
        r.first_error == crate::outline::first_error_spec(*tree),
        generic_outline(r.items@, *tree, generic),
{
    let collected = collect_generic_items(tree, 0, generic);
    let ghost c = collected@;
    let items = mark_overlapping_sibling_locations(collected);
    FileAst {
        language,
        root_docs: None,
        items,
        has_errors: tree.nodes[0].has_error,
        first_error: first_syntax_error(tree),
    }
}

} // verus!
