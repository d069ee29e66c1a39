use smartedit::outline::{AstLanguage, AstRenderOptions, AstSelector, FileAst};

    const PYTHON_SAMPLE: &str = r#"
"""module docs"""

class Greeter:
    """class docs"""

    def greet(self, name: str) -> str:
        """method docs"""

        def normalize(value):
            return value.strip()

        return normalize(name)

@cached
async def run(task):
    return task()
"#;

    #[test]
    fn renders_basic_python_outline() {
        let ast = FileAst::parse(AstLanguage::Python, PYTHON_SAMPLE).unwrap();

        assert_eq!(
            ast.render(AstRenderOptions::default()),
            "class Greeter\n> def greet\n>> def normalize\nasync def run"
        );
    }

    #[test]
    fn renders_python_signatures_and_docs() {
        let ast = FileAst::parse(AstLanguage::Python, PYTHON_SAMPLE).unwrap();

        assert_eq!(
            ast.render(AstRenderOptions {
                include_signatures: true,
                include_docs: true,
                ..AstRenderOptions::default()
            }),
            "\"\"\"module docs\"\"\"\n\"\"\"class docs\"\"\"\nclass Greeter:\n> \"\"\"method docs\"\"\"\n> def greet(self, name: str) -> str:\n>> def normalize(value):\n@cached\nasync def run(task):"
        );
    }

    #[test]
    fn renders_python_type_and_function_bodies_when_requested() {
        let ast = FileAst::parse(AstLanguage::Python, PYTHON_SAMPLE).unwrap();

        assert_eq!(
            ast.render(AstRenderOptions {
                include_signatures: true,
                include_type_bodies: true,
                include_function_bodies: true,
                include_docs: false,
                include_locations: false,
            }),
            "class Greeter:\n    \"\"\"class docs\"\"\"\n\n    def greet(self, name: str) -> str:\n        \"\"\"method docs\"\"\"\n\n        def normalize(value):\n            return value.strip()\n\n        return normalize(name)\n@cached\nasync def run(task):\n    return task()"
        );
    }

    #[test]
    fn selects_python_nested_items_by_glob_path() {
        let ast = FileAst::parse(AstLanguage::Python, PYTHON_SAMPLE).unwrap();

        let rendered = ast
            .render_with_selector(
                &AstSelector {
                    item_patterns: vec!["Greeter.greet.*".to_owned()],
                    type_patterns: Vec::new(),
                },
                AstRenderOptions::default(),
            )
            .unwrap();

        assert_eq!(rendered, "def normalize");
    }

    #[test]
    fn selects_python_type_and_methods() {
        let ast = FileAst::parse(AstLanguage::Python, PYTHON_SAMPLE).unwrap();

        let rendered = ast
            .render_with_selector(
                &AstSelector {
                    item_patterns: Vec::new(),
                    type_patterns: vec!["Greeter".to_owned()],
                },
                AstRenderOptions::default(),
            )
            .unwrap();

        assert_eq!(rendered, "class Greeter\n> def greet\n>> def normalize");
    }

    #[test]
    fn python_rendering_preserves_source_relative_indentation() {
        for source in [
            "def hanging(value: str,\n            fallback: str) -> str:\n    return value or fallback\n",
            "def hanging(value: str,\r\n            fallback: str) -> str:\r\n    return value or fallback\r\n",
        ] {
            let ast = FileAst::parse(AstLanguage::Python, source).unwrap();
            assert_eq!(
                ast.render(AstRenderOptions {
                    include_signatures: true,
                    ..AstRenderOptions::default()
                }),
                "def hanging(value: str,\n            fallback: str) -> str:"
            );
            assert_eq!(
                ast.render(AstRenderOptions {
                    include_function_bodies: true,
                    ..AstRenderOptions::default()
                }),
                "def hanging(value: str,\n            fallback: str) -> str:\n    return value or fallback"
            );
        }

        let nested = FileAst::parse(
            AstLanguage::Python,
            "class Outer:\n\t@decorator(\n\t\t\"arg\",\n\t)\n\tdef method(\n\t\tself,\n\t\tvalue,\n\t):\n\t\treturn value\n",
        )
        .unwrap();
        let rendered = nested
            .render_with_selector(
                &AstSelector {
                    item_patterns: vec!["Outer.method".to_owned()],
                    type_patterns: Vec::new(),
                },
                AstRenderOptions {
                    include_function_bodies: true,
                    ..AstRenderOptions::default()
                },
            )
            .unwrap();
        assert_eq!(
            rendered,
            "@decorator(\n\t\"arg\",\n)\ndef method(\n\tself,\n\tvalue,\n):\n\treturn value"
        );

        let one_line = FileAst::parse(
            AstLanguage::Python,
            "class Outer:\n    class Inner:\n        def method(self): return 1\n",
        )
        .unwrap();
        let rendered = one_line
            .render_with_selector(
                &AstSelector {
                    item_patterns: Vec::new(),
                    type_patterns: vec!["Outer.Inner".to_owned()],
                },
                AstRenderOptions {
                    include_type_bodies: true,
                    ..AstRenderOptions::default()
                },
            )
            .unwrap();
        assert_eq!(rendered, "class Inner:\n    def method(self): return 1");
    }

    #[test]
    fn python_signatures_end_at_the_structural_header_colon() {
        let ast = FileAst::parse(
            AstLanguage::Python,
            "@registered\nclass Outer:\n    # not part of the class signature\n    \"\"\"class docs\"\"\"\n\n    @traced\n    async def method(self) -> str:\n        # not part of the method signature\n        return \"ok\"\n",
        )
        .unwrap();

        assert_eq!(
            ast.render(AstRenderOptions {
                include_signatures: true,
                ..AstRenderOptions::default()
            }),
            "@registered\nclass Outer:\n> @traced\n> async def method(self) -> str:"
        );
    }

    #[test]
    fn python_docs_support_comments_parentheses_and_concatenation() {
        let ast = FileAst::parse(
            AstLanguage::Python,
            "#!/usr/bin/env python3\n# coding: utf-8\n(\"module \" \"docs\")\n\nclass Parenthesized:\n    # comments are not statements\n    (r\"\"\"class docs\"\"\")\n\n    def method(self):\n        # comments are not statements\n        (\"method \" \"docs\")\n        return None\n\nclass ByteDoc:\n    b\"not docs\"\n\nclass FStringDoc:\n    f\"not docs either\"\n",
        )
        .unwrap();

        let rendered = ast.render(AstRenderOptions {
            include_signatures: true,
            include_docs: true,
            ..AstRenderOptions::default()
        });
        assert_eq!(
            rendered,
            "\"module \" \"docs\"\nr\"\"\"class docs\"\"\"\nclass Parenthesized:\n> \"method \" \"docs\"\n> def method(self):\nclass ByteDoc:\nclass FStringDoc:"
        );
    }

    #[test]
    fn python_parenthesized_docs_skip_comments_at_every_nesting_level() {
        let ast = FileAst::parse(
            AstLanguage::Python,
            "(\n    # module wrapper comment\n    (\n        # nested module wrapper comment\n        \"module docs\"\n    )\n)\n\nclass Container:\n    (\n        # class wrapper comment\n        (\"class docs\")\n    )\n\n    def method(self):\n        (\n            # function wrapper comment\n            (\"method docs\")\n        )\n        return None\n\nclass TupleExpression:\n    (\"not docs\",)\n\nclass BinaryExpression:\n    (\"not \" + \"docs\")\n\ndef ConditionalExpression():\n    (\"not docs\" if True else \"still not docs\")\n",
        )
        .unwrap();
        assert!(!ast.has_errors);

        let rendered = ast.render(AstRenderOptions {
            include_signatures: true,
            include_docs: true,
            ..AstRenderOptions::default()
        });
        assert!(rendered.starts_with(
            "\"module docs\"\n\"class docs\"\nclass Container:\n> \"method docs\"\n> def method(self):"
        ));
        assert!(rendered.contains("class TupleExpression:"));
        assert!(rendered.contains("class BinaryExpression:"));
        assert!(rendered.contains("def ConditionalExpression():"));
        assert_eq!(rendered.matches("not docs").count(), 0);
        assert_eq!(rendered.matches("still not docs").count(), 0);
    }

    #[test]
    fn python_concatenated_docstrings_ignore_intervening_comments() {
        let ast = FileAst::parse(
            AstLanguage::Python,
            "(\n    \"module \"\n    # translator note\n    \"docs\"\n)\n\nclass Container:\n    (\n        \"class \"\n        # translator note\n        \"docs\"\n    )\n\n    def method(self):\n        (\n            \"method \"\n            # translator note\n            \"docs\"\n        )\n        return None\n\nclass NotDocs:\n    (\n        \"literal\"\n        # an operator still makes this non-documentation\n        + \"expression\"\n    )\n",
        )
        .unwrap();
        assert!(!ast.has_errors);

        let rendered = ast.render(AstRenderOptions {
            include_signatures: true,
            include_docs: true,
            ..AstRenderOptions::default()
        });
        assert!(rendered.starts_with(
            "\"module \"\n# translator note\n\"docs\"\n\"class \"\n# translator note\n\"docs\"\nclass Container:"
        ));
        assert!(
            rendered
                .contains("> \"method \"\n> # translator note\n> \"docs\"\n> def method(self):")
        );
        assert!(rendered.contains("class NotDocs:"));
        assert!(!rendered.contains("an operator still makes"));
    }

    #[test]
    fn python_template_strings_are_not_docstrings() {
        let ast = FileAst::parse(
            AstLanguage::Python,
            "t\"module template\"\n\nclass Container:\n    (T\"class \" \"template\")\n\n    def method(self):\n        (\n            t\"method \"\n            # concatenation bridge\n            \"template\"\n        )\n        return None\n",
        )
        .unwrap();
        assert!(!ast.has_errors);
        assert_eq!(ast.root_docs, None);
        assert_eq!(ast.items[0].docs, None);
        assert_eq!(ast.items[0].children[0].docs, None);

        let rendered = ast.render(AstRenderOptions {
            include_signatures: true,
            include_docs: true,
            ..AstRenderOptions::default()
        });
        assert_eq!(rendered, "class Container:\n> def method(self):");
    }

    #[test]
    fn python_full_bodies_do_not_duplicate_docstrings() {
        let ast = FileAst::parse(
            AstLanguage::Python,
            "class Container:\n    \"\"\"class docs\"\"\"\n\n    def method(self):\n        \"\"\"method docs\"\"\"\n        return 1\n",
        )
        .unwrap();

        let class = ast
            .render_with_selector(
                &AstSelector {
                    item_patterns: Vec::new(),
                    type_patterns: vec!["Container".to_owned()],
                },
                AstRenderOptions {
                    include_type_bodies: true,
                    include_function_bodies: true,
                    include_docs: true,
                    ..AstRenderOptions::default()
                },
            )
            .unwrap();
        assert_eq!(class.matches("class docs").count(), 1);
        assert_eq!(class.matches("method docs").count(), 1);

        let method = ast
            .render_with_selector(
                &AstSelector {
                    item_patterns: vec!["Container.method".to_owned()],
                    type_patterns: Vec::new(),
                },
                AstRenderOptions {
                    include_function_bodies: true,
                    include_docs: true,
                    ..AstRenderOptions::default()
                },
            )
            .unwrap();
        assert_eq!(method.matches("method docs").count(), 1);
        assert!(method.starts_with("def method(self):"));
    }

    #[test]
    fn python_discovers_definitions_in_every_compound_suite() {
        let ast = FileAst::parse(
            AstLanguage::Python,
            r#"def owner(value):
    if value == 1:
        def in_if(): pass
        class ClassInIf: pass
    elif value == 2:
        def in_elif(): pass
    else:
        def in_else(): pass
    for item in ():
        def in_for(): pass
    else:
        def in_for_else(): pass
    while value:
        def in_while(): pass
    try:
        def in_try(): pass
    except Exception:
        def in_except(): pass
    else:
        def in_try_else(): pass
    finally:
        def in_finally(): pass
    with context():
        @decorator
        def in_with(): pass
    match value:
        case 1:
            def in_case(): pass
"#,
        )
        .unwrap();

        assert_eq!(
            ast.render(AstRenderOptions::default()),
            "def owner\n> def in_if\n> class ClassInIf\n> def in_elif\n> def in_else\n> def in_for\n> def in_for_else\n> def in_while\n> def in_try\n> def in_except\n> def in_try_else\n> def in_finally\n> def in_with\n> def in_case"
        );
        let selected = ast
            .render_with_selector(
                &AstSelector {
                    item_patterns: vec!["owner.in_case".to_owned()],
                    type_patterns: Vec::new(),
                },
                AstRenderOptions {
                    include_signatures: true,
                    ..AstRenderOptions::default()
                },
            )
            .unwrap();
        assert_eq!(selected, "def in_case():");
    }

    #[test]
    fn python_type_aliases_support_bodies_and_qualified_selection() {
        let ast = FileAst::parse(
            AstLanguage::Python,
            "type Alias[T] = tuple[T, ...]\n\nclass Namespace:\n    type Nested[\n        T,\n    ] = dict[str, T]\n",
        )
        .unwrap();
        assert!(!ast.has_errors);
        assert_eq!(
            ast.render(AstRenderOptions::default()),
            "type Alias\nclass Namespace\n> type Nested"
        );

        let nested = ast
            .render_with_selector(
                &AstSelector {
                    item_patterns: Vec::new(),
                    type_patterns: vec!["Namespace.Nested".to_owned()],
                },
                AstRenderOptions {
                    include_type_bodies: true,
                    ..AstRenderOptions::default()
                },
            )
            .unwrap();
        assert_eq!(nested, "type Nested[\n    T,\n] = dict[str, T]");

        let top_level = ast
            .render_with_selector(
                &AstSelector {
                    item_patterns: Vec::new(),
                    type_patterns: vec!["Alias".to_owned()],
                },
                AstRenderOptions {
                    include_type_bodies: true,
                    ..AstRenderOptions::default()
                },
            )
            .unwrap();
        assert_eq!(top_level, "type Alias[T] = tuple[T, ...]");

        let malformed = FileAst::parse(AstLanguage::Python, "type Broken[T] =\n").unwrap();
        assert!(malformed.has_errors);
    }

    #[test]
    fn python_qualified_type_selectors_distinguish_nested_classes() {
        let ast = FileAst::parse(
            AstLanguage::Python,
            "class First:\n    class Inner:\n        def first(self): pass\n\nclass Second:\n    class Inner:\n        def second(self): pass\n",
        )
        .unwrap();

        let rendered = ast
            .render_with_selector(
                &AstSelector {
                    item_patterns: Vec::new(),
                    type_patterns: vec!["First.Inner".to_owned()],
                },
                AstRenderOptions::default(),
            )
            .unwrap();
        assert_eq!(rendered, "class Inner\n> def first");
    }

    #[test]
    fn python_stub_declarations_render_like_python() {
        let ast = FileAst::parse(
            AstLanguage::Python,
            "from typing import Protocol, overload\n\nclass Service(Protocol):\n    value: str\n    def fetch(self, identifier: int) -> str: ...\n\n@overload\ndef helper(value: int) -> str: ...\n@overload\ndef helper(value: str) -> str: ...\n",
        )
        .unwrap();
        assert!(!ast.has_errors);
        assert_eq!(
            ast.render(AstRenderOptions {
                include_signatures: true,
                ..AstRenderOptions::default()
            }),
            "class Service(Protocol):\n> def fetch(self, identifier: int) -> str:\n@overload\ndef helper(value: int) -> str:\n@overload\ndef helper(value: str) -> str:"
        );
        let service = ast
            .render_with_selector(
                &AstSelector {
                    item_patterns: Vec::new(),
                    type_patterns: vec!["Service".to_owned()],
                },
                AstRenderOptions {
                    include_type_bodies: true,
                    ..AstRenderOptions::default()
                },
            )
            .unwrap();
        assert!(service.contains("value: str"));
        assert!(service.contains("def fetch(self, identifier: int) -> str: ..."));
    }

    #[test]
    fn malformed_python_still_reports_parse_errors() {
        let ast = FileAst::parse(
            AstLanguage::Python,
            "def valid(): pass\ndef broken(: pass\nclass After: pass\n",
        )
        .unwrap();
        assert!(ast.has_errors);
        let error = ast.first_error.expect("syntax-error location");
        assert!(error.line >= 1);
    }
