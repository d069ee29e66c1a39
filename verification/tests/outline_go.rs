use smartedit::outline::{AstLanguage, AstRenderOptions, AstSelector, FileAst};

    const GO_SAMPLE: &str = r#"
// package docs
package sample

// Greeter docs
type Greeter struct {
    Name string
}

type Runner interface {
    // Run docs
    Run(task string) string
}

const DefaultName = "world"
var Count int

func NewGreeter(name string) Greeter {
    return Greeter{Name: name}
}

func (g Greeter) Greet(name string) string {
    return name
}
"#;

    #[test]
    fn renders_basic_go_outline() {
        let ast = FileAst::parse(AstLanguage::Go, GO_SAMPLE).unwrap();

        assert_eq!(
            ast.render(AstRenderOptions::default()),
            "struct Greeter\n> field Name\ninterface Runner\n> fn Run\nconst DefaultName\nvar Count\nfunc NewGreeter\nmethod Greeter.Greet"
        );
    }

#[test]
    fn renders_go_signatures_and_docs() {
        let ast = FileAst::parse(AstLanguage::Go, GO_SAMPLE).unwrap();

        assert_eq!(
            ast.render(AstRenderOptions {
                include_signatures: true,
                include_docs: true,
                ..AstRenderOptions::default()
            }),
            "// package docs\n// Greeter docs\ntype Greeter struct\n> Name string\ntype Runner interface\n> // Run docs\n> Run(task string) string\nconst DefaultName = \"world\"\nvar Count int\nfunc NewGreeter(name string) Greeter\nfunc (g Greeter) Greet(name string) string"
        );
    }

#[test]
    fn selects_go_type_and_methods() {
        let ast = FileAst::parse(AstLanguage::Go, GO_SAMPLE).unwrap();

        let rendered = ast
            .render_with_selector(
                &AstSelector {
                    item_patterns: Vec::new(),
                    type_patterns: vec!["Greeter".to_owned()],
                },
                AstRenderOptions::default(),
            )
            .unwrap();

        assert_eq!(
            rendered,
            "struct Greeter\n> field Name\nmethod Greeter.Greet"
        );
    }

#[test]
    fn go_declaration_specs_have_independent_names_docs_and_locations() {
        let source = "package sample\n\ntype (\n    // Record docs\n    Record struct { Value int }\n    Alias = map[string]int\n)\n\nconst (\n    // paired values\n    First, Second = 1, 2\n    Third = 3\n)\nvar One, Two int\n";
        let ast = FileAst::parse(AstLanguage::Go, source).unwrap();

        assert_eq!(
            ast.render(AstRenderOptions::default()),
            "struct Record\n> field Value\ntype Alias\nconst First\nconst Second\nconst Third\nvar One\nvar Two"
        );
        let second = ast
            .render_with_selector(
                &AstSelector {
                    item_patterns: vec!["Second".to_owned()],
                    type_patterns: Vec::new(),
                },
                AstRenderOptions {
                    include_signatures: true,
                    include_docs: true,
                    include_locations: true,
                    ..AstRenderOptions::default()
                },
            )
            .unwrap();
        assert_eq!(
            second,
            "// paired values\n[9-11 shared-line] const First, Second = 1, 2"
        );
        assert!(!ast.items[2].location.is_edit_ready);
        assert!(!ast.items[3].location.is_edit_ready);
        assert!(!ast.items[5].location.is_edit_ready);
        assert!(!ast.items[6].location.is_edit_ready);
        assert_eq!(ast.items[0].location.display(), "3-5");
        assert!(ast.items[0].location.is_edit_ready);

        let record = ast
            .render_with_selector(
                &AstSelector {
                    item_patterns: vec!["Record".to_owned()],
                    type_patterns: Vec::new(),
                },
                AstRenderOptions {
                    include_type_bodies: true,
                    include_docs: true,
                    include_locations: true,
                    ..AstRenderOptions::default()
                },
            )
            .unwrap();
        assert_eq!(
            record,
            "// Record docs\n[3-5] type Record struct { Value int }"
        );

        let alias = ast
            .render_with_selector(
                &AstSelector {
                    item_patterns: vec!["Alias".to_owned()],
                    type_patterns: Vec::new(),
                },
                AstRenderOptions {
                    include_signatures: true,
                    ..AstRenderOptions::default()
                },
            )
            .unwrap();
        assert_eq!(alias, "type Alias = map[string]int");
    }

#[test]
    fn go_receiver_types_and_method_selectors_are_structural() {
        let source = "package sample\n\ntype Box[T any] struct { Value T }\nfunc (b *Box[T]) Pointer() {}\nfunc (Box[T]) Unnamed() {}\nfunc (b Box[T]) Value() {}\n";
        let ast = FileAst::parse(AstLanguage::Go, source).unwrap();

        for (selector, expected) in [
            ("Box.Pointer", "method Box.Pointer"),
            ("Box.Unnamed", "method Box.Unnamed"),
            ("Unnamed", "method Box.Unnamed"),
        ] {
            assert_eq!(
                ast.render_with_selector(
                    &AstSelector {
                        item_patterns: vec![selector.to_owned()],
                        type_patterns: Vec::new(),
                    },
                    AstRenderOptions::default(),
                )
                .unwrap(),
                expected
            );
        }

        assert_eq!(
            ast.render_with_selector(
                &AstSelector {
                    item_patterns: Vec::new(),
                    type_patterns: vec!["Box".to_owned()],
                },
                AstRenderOptions::default(),
            )
            .unwrap(),
            "struct Box\n> field Value\nmethod Box.Pointer\nmethod Box.Unnamed\nmethod Box.Value"
        );
    }

#[test]
    fn go_root_docs_are_anchored_to_the_package_clause() {
        let source = "//go:build linux\n// +build linux\n\n// Copyright Example\n\n// Package sample demonstrates docs.\npackage sample\n\n// Item docs.\nfunc Item() {}\n";
        let ast = FileAst::parse(AstLanguage::Go, source).unwrap();

        assert_eq!(
            ast.render(AstRenderOptions {
                include_docs: true,
                ..AstRenderOptions::default()
            }),
            "//go:build linux\n// +build linux\n\n// Copyright Example\n\n// Package sample demonstrates docs.\n// Item docs.\nfunc Item"
        );
        assert_eq!(ast.items[0].location.display(), "8-10");
    }

#[test]
    fn go_requires_a_complete_source_file_shape() {
        for (source, expected_line) in [
            ("", 0),
            ("func MissingPackage() {}\n", 0),
            ("const Before = 1\npackage sample\n", 0),
            ("package first\npackage second\n", 1),
            ("package sample\nvalue := 1\n", 1),
            ("package sample\nreturn\n", 1),
        ] {
            let ast = FileAst::parse(AstLanguage::Go, source).unwrap();
            assert!(
                ast.has_errors,
                "accepted invalid complete Go file: {source:?}"
            );
            assert_eq!(
                ast.first_error.map(|error| error.line),
                Some(expected_line),
                "wrong error location for {source:?}"
            );
        }

        let valid = FileAst::parse(
            AstLanguage::Go,
            "//go:build linux\n\n// Package sample docs.\npackage sample\n\nimport \"fmt\"\nvar Value = fmt.Sprint(1)\n",
        )
        .unwrap();
        assert!(!valid.has_errors);
        assert_eq!(valid.first_error, None);
    }

#[test]
    fn go_grouped_var_specs_are_independent_and_group_context_renders_once() {
        let source = "package sample\n\n// Types group.\ntype (\n    TypeA int\n    TypeB = string\n)\n\n// Constants group.\nconst (\n    ConstantA = 1\n    ConstantB = 2\n)\n\n// Variables group.\nvar (\n    // Alpha docs.\n    Alpha int\n    Beta string\n)\n";
        let ast = FileAst::parse(AstLanguage::Go, source).unwrap();
        let rendered = ast.render(AstRenderOptions {
            include_signatures: true,
            include_docs: true,
            ..AstRenderOptions::default()
        });

        for group_doc in [
            "// Types group.",
            "// Constants group.",
            "// Variables group.",
        ] {
            assert_eq!(rendered.matches(group_doc).count(), 1, "{rendered}");
        }
        assert!(rendered.contains("type TypeA int\ntype TypeB = string"));
        assert!(rendered.contains("const ConstantA = 1\nconst ConstantB = 2"));
        assert!(rendered.contains("// Alpha docs.\nvar Alpha int\nvar Beta string"));

        let beta = ast
            .render_with_selector(
                &AstSelector {
                    item_patterns: vec!["Beta".to_owned()],
                    type_patterns: Vec::new(),
                },
                AstRenderOptions {
                    include_signatures: true,
                    include_docs: true,
                    include_locations: true,
                    ..AstRenderOptions::default()
                },
            )
            .unwrap();
        assert_eq!(beta, "[18-19] var Beta string");
        let beta_item = ast
            .select_items(&AstSelector {
                item_patterns: vec!["Beta".to_owned()],
                type_patterns: Vec::new(),
            })
            .unwrap()
            .remove(0);
        assert!(beta_item.location.is_edit_ready);
    }

#[test]
    fn go_type_signatures_omit_bodies_while_type_bodies_are_complete() {
        let ast = FileAst::parse(
            AstLanguage::Go,
            "package sample\n\ntype Record[T any] struct {\n    Value T\n}\ntype Service interface {\n    Run(T) error\n}\n",
        )
        .unwrap();

        assert_eq!(
            ast.render(AstRenderOptions {
                include_signatures: true,
                ..AstRenderOptions::default()
            }),
            "type Record[T any] struct\n> Value T\ntype Service interface\n> Run(T) error"
        );
        assert_eq!(
            ast.render(AstRenderOptions {
                include_type_bodies: true,
                ..AstRenderOptions::default()
            }),
            "type Record[T any] struct {\n    Value T\n}\ntype Service interface {\n    Run(T) error\n}"
        );
    }

#[test]
    fn go_functions_include_direct_local_declarations_only() {
        let source = "package sample\n\nfunc Work() {\n    const LocalA, LocalB = 1, 2\n    type Local = int\n    var LocalValue string\n    if true {\n        var Nested int\n    }\n}\n";
        let ast = FileAst::parse(AstLanguage::Go, source).unwrap();

        assert_eq!(
            ast.render(AstRenderOptions::default()),
            "func Work\n> const LocalA\n> const LocalB\n> type Local\n> var LocalValue"
        );
        assert!(!ast.render(AstRenderOptions::default()).contains("Nested"));
    }

#[test]
    fn go_preambles_include_adjacent_directives_but_not_trailing_comments() {
        let source = "package sample\n\nvar prior int // belongs to prior\n//go:noinline\n// Work docs.\nfunc Work() {}\n";
        let ast = FileAst::parse(AstLanguage::Go, source).unwrap();
        let work = &ast.items[1];

        assert_eq!(work.docs.as_deref(), Some("//go:noinline\n// Work docs."));
        assert_eq!(work.location.display(), "3-6");
        assert!(!work.docs.as_deref().unwrap().contains("belongs"));
        assert_eq!(
            ast.render(AstRenderOptions {
                include_function_bodies: true,
                include_docs: true,
                ..AstRenderOptions::default()
            }),
            "var prior\n//go:noinline\n// Work docs.\nfunc Work() {}"
        );
        assert_eq!(
            ast.render_with_selector(
                &AstSelector {
                    item_patterns: vec!["Work".to_owned()],
                    type_patterns: Vec::new(),
                },
                AstRenderOptions {
                    include_function_bodies: true,
                    ..AstRenderOptions::default()
                },
            )
            .unwrap(),
            "//go:noinline\nfunc Work() {}"
        );
    }

#[test]
    fn go_struct_and_interface_members_have_qualified_selectors() {
        let source = "package sample\n\ntype Record struct {\n    Left, Right int\n    embedded.Type\n}\ntype API interface {\n    // Call docs.\n    Call(string) error\n    Embedded\n    ~int | ~string\n}\n";
        let ast = FileAst::parse(AstLanguage::Go, source).unwrap();

        for (selector, expected) in [
            ("Record.Left", "field Left"),
            ("Record.Right", "field Right"),
            ("Record.embedded.Type", "field embedded.Type"),
            ("API.Call", "fn Call"),
            ("API.Embedded", "type Embedded"),
        ] {
            assert_eq!(
                ast.render_with_selector(
                    &AstSelector {
                        item_patterns: vec![selector.to_owned()],
                        type_patterns: Vec::new(),
                    },
                    AstRenderOptions::default(),
                )
                .unwrap(),
                expected
            );
        }
        assert_eq!(
            ast.render_with_selector(
                &AstSelector {
                    item_patterns: vec!["API.Call".to_owned()],
                    type_patterns: Vec::new(),
                },
                AstRenderOptions {
                    include_signatures: true,
                    include_docs: true,
                    ..AstRenderOptions::default()
                },
            )
            .unwrap(),
            "// Call docs.\nCall(string) error"
        );
    }
