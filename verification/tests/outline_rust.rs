#![allow(dead_code)]
use smartedit::outline::{AstLanguage, AstRenderOptions, AstSelector, FileAst};

    const SAMPLE: &str = r#"
struct S {
    a: bool,
}

enum E {
    A,
    B,
}

fn f1(a: String) -> bool {
    !a.is_empty()
}

impl S {
    fn f2(&self) -> bool {
        self.a
    }
}
"#;

    const PYTHON_SAMPLE: &str = r#"
"""module docs"""

class Greeter:
    """class docs"""

    def greet(self, name: str) -> str:
        """method docs"""

        def normalize(value):
            return value.strip()

        return normalize(name)

@cached
async def run(task):
    return task()
"#;

    const JAVASCRIPT_SAMPLE: &str = r#"
/** module docs */

/** class docs */
class Greeter {
    /** method docs */
    greet(name) {
        function normalize(value) {
            return value.trim();
        }

        return normalize(name);
    }
}

export const run = async (task) => {
    return task();
};
"#;

    const TYPESCRIPT_SAMPLE: &str = r#"
/** module docs */

/** interface docs */
export interface Greeter {
    /** method docs */
    greet(name: string): string;
}

export class Service {
    run(task: string): string {
        const normalize = (value: string) => value.trim();
        return normalize(task);
    }
}

export type Task = { id: string };
export enum Mode {
    Dev,
    Prod,
}
"#;

    const GO_SAMPLE: &str = r#"
// package docs
package sample

// Greeter docs
type Greeter struct {
    Name string
}

type Runner interface {
    // Run docs
    Run(task string) string
}

const DefaultName = "world"
var Count int

func NewGreeter(name string) Greeter {
    return Greeter{Name: name}
}

func (g Greeter) Greet(name string) string {
    return name
}
"#;

    #[test]
    fn renders_basic_rust_outline() {
        let ast = FileAst::parse(AstLanguage::Rust, SAMPLE).unwrap();

        assert_eq!(
            ast.render(AstRenderOptions::default()),
            "struct S\nenum E\nfn f1\nimpl S\n> fn f2"
        );
    }

    #[test]
    fn rust_function_body_macro_invocations_require_function_bodies() {
        let source = "fn checked() {\n    assert_eq!(1, 1);\n}\n";
        let ast = FileAst::parse(AstLanguage::Rust, source).unwrap();

        assert_eq!(ast.render(AstRenderOptions::default()), "fn checked");
        assert_eq!(
            ast.render(AstRenderOptions {
                include_function_bodies: true,
                ..AstRenderOptions::default()
            }),
            source.trim()
        );
    }

    #[test]
    fn renders_signatures_when_requested() {
        let ast = FileAst::parse(AstLanguage::Rust, SAMPLE).unwrap();

        assert_eq!(
            ast.render(AstRenderOptions {
                include_signatures: true,
                ..AstRenderOptions::default()
            }),
            "struct S\nenum E\nfn f1(a: String) -> bool\nimpl S\n> fn f2(&self) -> bool"
        );
    }

    #[test]
    fn renders_type_and_function_bodies_when_requested() {
        let ast = FileAst::parse(AstLanguage::Rust, SAMPLE).unwrap();

        assert_eq!(
            ast.render(AstRenderOptions {
                include_signatures: true,
                include_type_bodies: true,
                include_function_bodies: true,
                include_docs: false,
                include_locations: false,
            }),
            "struct S {\n    a: bool,\n}\nenum E {\n    A,\n    B,\n}\nfn f1(a: String) -> bool {\n    !a.is_empty()\n}\nimpl S {\n    fn f2(&self) -> bool {\n        self.a\n    }\n}"
        );
    }

    #[test]
    fn selects_module_items_by_glob_path() {
        let ast = FileAst::parse(AstLanguage::Rust, "mod xyz { fn inner() {} struct S; }").unwrap();

        let rendered = ast
            .render_with_selector(
                &AstSelector {
                    item_patterns: vec!["xyz.*".to_owned()],
                    type_patterns: Vec::new(),
                },
                AstRenderOptions::default(),
            )
            .unwrap();

        assert_eq!(rendered, "fn inner\nstruct S");
    }

    #[test]
    fn selects_top_level_items_by_name_without_file_prefix() {
        let ast = FileAst::parse(AstLanguage::Rust, "fn f1() {} fn f2() {}").unwrap();

        let rendered = ast
            .render_with_selector(
                &AstSelector {
                    item_patterns: vec!["f1".to_owned()],
                    type_patterns: Vec::new(),
                },
                AstRenderOptions::default(),
            )
            .unwrap();

        assert_eq!(rendered, "fn f1");
    }

    #[test]
    fn selects_type_and_associated_impls() {
        let ast = FileAst::parse(
            AstLanguage::Rust,
            "struct S1; impl S1 { fn new() -> Self { Self } } fn other() {}",
        )
        .unwrap();

        let rendered = ast
            .render_with_selector(
                &AstSelector {
                    item_patterns: Vec::new(),
                    type_patterns: vec!["S1".to_owned()],
                },
                AstRenderOptions::default(),
            )
            .unwrap();

        assert_eq!(rendered, "struct S1\nimpl S1\n> fn new");
    }

    #[test]
    fn renders_locations_when_requested() {
        let ast = FileAst::parse(AstLanguage::Rust, SAMPLE).unwrap();

        assert_eq!(
            ast.render(AstRenderOptions {
                include_locations: true,
                ..AstRenderOptions::default()
            }),
            "[1-4] struct S\n[5-9] enum E\n[10-13] fn f1\n[14-19] impl S\n> [15-18] fn f2"
        );
    }

    #[test]
    fn renders_edit_ready_locations_consistently_across_languages() {
        let options = AstRenderOptions {
            include_locations: true,
            ..AstRenderOptions::default()
        };
        let fixtures = [
            (AstLanguage::Rust, "fn run() {}\n", "[0-1] fn run"),
            (
                AstLanguage::Python,
                "def run():\n    pass\n",
                "[0-2] def run",
            ),
            (
                AstLanguage::JavaScript,
                "function run() {}\n",
                "[0-1] function run",
            ),
            (
                AstLanguage::TypeScript,
                "function run(): void {}\n",
                "[0-1] function run",
            ),
        ];

        for (language, source, expected) in fixtures {
            let ast = FileAst::parse(language, source).unwrap();
            assert_eq!(ast.render(options), expected);
        }
    }

    #[test]
    fn rust_attributes_docs_and_edit_ready_locations_cover_the_owned_item() {
        let source = "before!();\n/// selected docs\n#[cfg(any(\n    unix,\n    windows,\n))]\n// rationale for the selected function\nfn selected() {\n    body!();\n}\nafter!();\n";
        let ast = FileAst::parse(AstLanguage::Rust, source).unwrap();
        let selected = ast
            .select_items(&AstSelector {
                item_patterns: vec!["selected".to_owned()],
                type_patterns: Vec::new(),
            })
            .unwrap();
        assert_eq!(selected[0].location.display(), "1-10");

        let rendered = ast
            .render_with_selector(
                &AstSelector {
                    item_patterns: vec!["selected".to_owned()],
                    type_patterns: Vec::new(),
                },
                AstRenderOptions {
                    include_function_bodies: true,
                    include_docs: true,
                    include_locations: true,
                    ..AstRenderOptions::default()
                },
            )
            .unwrap();
        assert_eq!(
            rendered,
            "/// selected docs\n#[cfg(any(\n    unix,\n    windows,\n))]\n// rationale for the selected function\n[1-10] fn selected() {\n           body!();\n       }"
        );
    }

    #[test]
    fn rust_docs_work_in_both_legal_attribute_orders_and_inline_modules() {
        let source = "#!/usr/bin/env rust-script\n// bootstrap comment\n#![cfg_attr(\n    all(),\n    allow(dead_code)\n)]\n//! crate docs\n\n/// before attribute\n#[derive(Debug)]\nstruct Before;\n\n#[derive(Debug)]\n/// after attribute\nstruct After;\n\n#[cfg(unix)]\nmod inner {\n    //! inner docs\n    fn child() {}\n}\n";
        let ast = FileAst::parse(AstLanguage::Rust, source).unwrap();
        assert_eq!(ast.root_docs.as_deref(), Some("//! crate docs"));
        let rendered = ast.render(AstRenderOptions {
            include_docs: true,
            ..AstRenderOptions::default()
        });
        assert!(rendered.contains("/// before attribute\nstruct Before"));
        assert!(rendered.contains("/// after attribute\nstruct After"));
        assert!(rendered.contains("mod inner\n> //! inner docs\n> fn child"));

        let signatures = ast.render(AstRenderOptions {
            include_signatures: true,
            include_docs: true,
            ..AstRenderOptions::default()
        });
        assert!(signatures.contains("#[derive(Debug)]\n/// after attribute\nstruct After;"));
        assert!(signatures.contains("#[cfg(unix)]\nmod inner\n> //! inner docs\n> fn child()"));

        let bodies = ast.render(AstRenderOptions {
            include_type_bodies: true,
            include_docs: true,
            ..AstRenderOptions::default()
        });
        assert!(bodies.contains("#[cfg(unix)]\nmod inner {\n    //! inner docs"));
        assert_eq!(bodies.matches("//! inner docs").count(), 1);
    }

    #[test]
    fn type_selection_handles_references_and_qualified_duplicate_names() {
        let ast = FileAst::parse(
            AstLanguage::Rust,
            "struct Wrapper<T>(T);\ntrait Marker {}\nimpl<'a, T> Marker for &'a mut Wrapper<T> {}\nmod nested { struct Wrapper; impl Wrapper { fn nested() {} } }\nimpl crate::nested::Wrapper { fn external() {} }\n",
        )
        .unwrap();

        let bare = ast
            .render_with_selector(
                &AstSelector {
                    item_patterns: Vec::new(),
                    type_patterns: vec!["Wrapper".to_owned()],
                },
                AstRenderOptions::default(),
            )
            .unwrap();
        assert!(bare.contains("impl Marker for &'a mut Wrapper<T>"));
        assert!(bare.contains("struct Wrapper"));

        let qualified = ast
            .render_with_selector(
                &AstSelector {
                    item_patterns: Vec::new(),
                    type_patterns: vec!["nested.Wrapper".to_owned()],
                },
                AstRenderOptions::default(),
            )
            .unwrap();
        assert_eq!(
            qualified,
            "struct Wrapper\nimpl Wrapper\n> fn nested\nimpl crate::nested::Wrapper\n> fn external"
        );
    }

    #[test]
    fn rust_impl_type_paths_resolve_relative_to_their_module() {
        let ast = FileAst::parse(
            AstLanguage::Rust,
            "struct Root;\nmod outer {\n    struct Local;\n    impl self::Local { fn local() {} }\n    mod nested {\n        struct Deep;\n        impl self::Deep { fn deep() {} }\n        impl super::Local { fn parent() {} }\n        impl super::super::Root { fn repeated_super() {} }\n        mod leaf { struct Child; }\n        impl leaf::Child { fn plain_nested() {} }\n        impl crate::Root { fn crate_root() {} }\n    }\n}\n",
        )
        .unwrap();

        let select = |pattern: &str| {
            ast.render_with_selector(
                &AstSelector {
                    item_patterns: Vec::new(),
                    type_patterns: vec![pattern.to_owned()],
                },
                AstRenderOptions::default(),
            )
            .unwrap()
        };

        let local = select("outer.Local");
        assert!(local.contains("struct Local"));
        assert!(local.contains("impl self::Local"));
        assert!(local.contains("impl super::Local"));

        let deep = select("outer.nested.Deep");
        assert!(deep.contains("struct Deep"));
        assert!(deep.contains("impl self::Deep"));

        let child = select("outer.nested.leaf.Child");
        assert!(child.contains("struct Child"));
        assert!(child.contains("impl leaf::Child"));

        let root = select("Root");
        assert!(root.contains("struct Root"));
        assert!(root.contains("impl super::super::Root"));
        assert!(root.contains("impl crate::Root"));
    }

    #[test]
    fn qualified_rust_type_selectors_do_not_use_unresolved_impl_fallbacks() {
        let ast = FileAst::parse(
            AstLanguage::Rust,
            "mod a { struct Type; }\nmod b { mod a { pub(crate) struct Type; } impl a::Type { fn nested_only() {} } }\n",
        )
        .unwrap();

        let top_level = ast
            .render_with_selector(
                &AstSelector {
                    item_patterns: Vec::new(),
                    type_patterns: vec!["a.Type".to_owned()],
                },
                AstRenderOptions::default(),
            )
            .unwrap();
        assert_eq!(top_level, "struct Type");

        let nested = ast
            .render_with_selector(
                &AstSelector {
                    item_patterns: Vec::new(),
                    type_patterns: vec!["b.a.Type".to_owned()],
                },
                AstRenderOptions::default(),
            )
            .unwrap();
        assert_eq!(nested, "struct Type\nimpl a::Type\n> fn nested_only");

        let bare = ast
            .render_with_selector(
                &AstSelector {
                    item_patterns: Vec::new(),
                    type_patterns: vec!["Type".to_owned()],
                },
                AstRenderOptions::default(),
            )
            .unwrap();
        assert_eq!(bare.matches("struct Type").count(), 2);
        assert!(bare.contains("impl a::Type"));
    }

    #[test]
    fn trait_type_bodies_include_associated_types() {
        let ast = FileAst::parse(
            AstLanguage::Rust,
            "pub trait Service<T> where T: Clone {\n    type Output<'a>: Send where Self: 'a;\n    const VALUE: usize;\n    fn required(&self, value: T) -> bool;\n}\n",
        )
        .unwrap();

        let outline = ast.render(AstRenderOptions::default());
        assert!(outline.contains("> type Output"));
        let body = ast
            .render_with_selector(
                &AstSelector {
                    item_patterns: Vec::new(),
                    type_patterns: vec!["Service".to_owned()],
                },
                AstRenderOptions {
                    include_type_bodies: true,
                    ..AstRenderOptions::default()
                },
            )
            .unwrap();
        assert!(body.starts_with("pub trait Service<T> where T: Clone {"));
        assert!(body.contains("type Output<'a>: Send where Self: 'a;"));
    }

    #[test]
    fn rust_public_api_and_local_declarations_are_represented() {
        let source = "pub use crate::api::Thing;\n#[macro_export]\nmacro_rules! exported { () => {} }\nunsafe extern \"C\" {\n    pub safe fn foreign(value: i32) -> i32;\n    pub static FOREIGN: i32;\n}\nfn outer() {\n    fn local() {}\n    local_macro!();\n}\n";
        let ast = FileAst::parse(AstLanguage::Rust, source).unwrap();
        let rendered = ast.render(AstRenderOptions {
            include_signatures: true,
            ..AstRenderOptions::default()
        });
        assert!(rendered.contains("pub use crate::api::Thing;"));
        assert!(rendered.contains("#[macro_export]\nmacro_rules! exported"));
        assert!(rendered.contains("unsafe extern \"C\""));
        assert!(rendered.contains("> pub safe fn foreign(value: i32) -> i32;"));
        assert!(rendered.contains("> pub static FOREIGN: i32;"));
        assert!(rendered.contains("> fn local()"));
        assert!(!rendered.contains("local_macro"));
    }

    #[test]
    fn rust_detached_ordinary_comments_are_not_item_preambles() {
        let source = "// section banner\r\n\r\n/// selected docs\r\n#[inline]\r\nfn selected() {}\r\n\r\nmod nested {\r\n    // nested section\r\n\r\n    fn child() {}\r\n}\r\n";
        let ast = FileAst::parse(AstLanguage::Rust, source).unwrap();
        let selected = &ast.items[0];
        assert_eq!(selected.docs.as_deref(), Some("/// selected docs"));
        assert_eq!(selected.attributes.as_deref(), Some("#[inline]"));
        assert_eq!(
            selected.source_preamble.as_deref(),
            Some("/// selected docs\n#[inline]")
        );
        assert_eq!(selected.location.start_line, 2);

        let child = &ast.items[1].children[0];
        assert_eq!(child.name.as_deref(), Some("child"));
        assert_eq!(child.source_preamble, None);
        assert_eq!(child.attributes, None);
        assert_eq!(child.location.start_line, 9);
    }

    #[test]
    fn rust_macro_rules_items_use_source_syntax_in_summaries_and_signatures() {
        let ast = FileAst::parse(
            AstLanguage::Rust,
            "#[macro_export]\nmacro_rules! exported { ($value:expr) => { $value } }\n",
        )
        .unwrap();
        let item = &ast.items[0];
        assert_eq!(item.summary, "macro_rules! exported");
        assert_eq!(item.signature.as_deref(), Some("macro_rules! exported"));
        assert_eq!(item.attributes.as_deref(), Some("#[macro_export]"));
        assert!(item.body.as_deref().unwrap().contains("($value:expr)"));
    }

    #[test]
    fn locations_annotate_items_that_share_source_lines() {
        let ast = FileAst::parse(
            AstLanguage::Rust,
            "fn first() {} fn second() {}\nmod inline { fn child() {} }\n",
        )
        .unwrap();

        assert_eq!(ast.items[0].location.display(), "0-1 shared-line");
        assert_eq!(ast.items[1].location.display(), "0-1 shared-line");
        assert!(!ast.items[0].location.is_edit_ready);
        assert!(!ast.items[1].location.is_edit_ready);
        assert_eq!(
            ast.items[2].children[0].location.display(),
            "1-2 shared-line"
        );
        assert!(!ast.items[2].children[0].location.is_edit_ready);

        assert_eq!(
            ast.render(AstRenderOptions {
                include_locations: true,
                ..AstRenderOptions::default()
            }),
            "[0-1 shared-line] fn first\n[0-1 shared-line] fn second\n[1-2] mod inline\n> [1-2 shared-line] fn child"
        );

        let javascript = FileAst::parse(
            AstLanguage::JavaScript,
            "const first = () => {}, second = () => {};\n",
        )
        .unwrap();
        assert_eq!(javascript.items.len(), 2);
        assert_eq!(javascript.items[0].location.display(), "0-1 shared-line");
        assert_eq!(javascript.items[1].location.display(), "0-1 shared-line");
    }

    #[test]
    fn renders_deeper_nesting_with_repeated_markers() {
        let ast = FileAst::parse(
            AstLanguage::Rust,
            "mod outer { mod inner { fn deep() {} } }",
        )
        .unwrap();

        assert_eq!(
            ast.render(AstRenderOptions::default()),
            "mod outer\n> mod inner\n>> fn deep"
        );
    }

    #[test]
    fn renders_docs_when_requested() {
        let ast = FileAst::parse(
            AstLanguage::Rust,
            "//! crate docs\n//! second line\n\n/// struct docs\nstruct S;\n\n/// module docs\nmod inner {\n    /// nested docs\n    fn deep() {}\n}\n",
        )
        .unwrap();

        assert_eq!(
            ast.render(AstRenderOptions {
                include_docs: true,
                ..AstRenderOptions::default()
            }),
            "//! crate docs\n//! second line\n/// struct docs\nstruct S\n/// module docs\nmod inner\n> /// nested docs\n> fn deep"
        );
    }

    #[test]
    fn renders_docs_across_attrs_and_crate_attributes() {
        let ast = FileAst::parse(
            AstLanguage::Rust,
            "#![allow(dead_code)]\n//! crate docs\n\n/// struct docs\n#[derive(Debug)]\nstruct S;\n",
        )
        .unwrap();

        assert_eq!(
            ast.render(AstRenderOptions {
                include_docs: true,
                ..AstRenderOptions::default()
            }),
            "//! crate docs\n/// struct docs\nstruct S"
        );
    }

    #[test]
    fn rust_doc_attributes_are_docs_and_preserve_owned_source_order() {
        let source = "#![doc = \"crate docs\"]\n#![doc(html_logo_url = \"logo.svg\")]\n#![allow(dead_code)]\n\n#[doc(hidden)]\n#[cfg(unix)]\n#[doc = \"item docs\"]\n#[doc(alias = \"documented\")]\n#[inline]\npub fn documented() {}\n";
        let ast = FileAst::parse(AstLanguage::Rust, source).unwrap();

        assert_eq!(
            ast.render(AstRenderOptions {
                include_docs: true,
                ..AstRenderOptions::default()
            }),
            "#![doc = \"crate docs\"]\n#[doc = \"item docs\"]\nfn documented"
        );
        assert_eq!(
            ast.render(AstRenderOptions {
                include_signatures: true,
                include_docs: true,
                ..AstRenderOptions::default()
            }),
            "#![doc = \"crate docs\"]\n#[doc(hidden)]\n#[cfg(unix)]\n#[doc = \"item docs\"]\n#[doc(alias = \"documented\")]\n#[inline]\npub fn documented()"
        );
        assert_eq!(
            ast.render(AstRenderOptions {
                include_signatures: true,
                ..AstRenderOptions::default()
            }),
            "#[doc(hidden)]\n#[cfg(unix)]\n#[doc(alias = \"documented\")]\n#[inline]\npub fn documented()"
        );
        assert_eq!(ast.items[0].location.display(), "4-10");
    }

    #[test]
    fn parses_python_file_paths() {
        assert_eq!(
            AstLanguage::from_path(("example.py")),
            Some(AstLanguage::Python)
        );
        assert_eq!(
            AstLanguage::from_path(("example.pyi")),
            Some(AstLanguage::Python)
        );
    }

    #[test]
    fn parses_javascript_typescript_and_go_file_paths() {
        assert_eq!(
            AstLanguage::from_path(("example.js")),
            Some(AstLanguage::JavaScript)
        );
        assert_eq!(
            AstLanguage::from_path(("example.jsx")),
            Some(AstLanguage::JavaScript)
        );
        assert_eq!(
            AstLanguage::from_path(("example.ts")),
            Some(AstLanguage::TypeScript)
        );
        assert_eq!(
            AstLanguage::from_path(("example.d.ts")),
            Some(AstLanguage::TypeScript)
        );
        assert_eq!(
            AstLanguage::from_path(("example.mts")),
            Some(AstLanguage::TypeScript)
        );
        assert_eq!(
            AstLanguage::from_path(("example.cts")),
            Some(AstLanguage::TypeScript)
        );
        assert_eq!(
            AstLanguage::from_path(("example.tsx")),
            Some(AstLanguage::Tsx)
        );
        assert_eq!(
            AstLanguage::from_path(("example.go")),
            Some(AstLanguage::Go)
        );
    }
