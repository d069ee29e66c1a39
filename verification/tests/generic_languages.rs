use smartedit::outline::{parse_file_ast, AstItemKind, AstRenderOptions, AstSelector};

#[test]
fn java_outline_lists_classes_and_methods() {
    let source = "class Box {\n    int value() { return 1; }\n}\n";
    let ast = parse_file_ast("Box.java", source).unwrap();
    assert!(!ast.has_errors);
    assert_eq!(ast.items[0].kind, AstItemKind::Class);
    assert_eq!(ast.render(AstRenderOptions::default()), "class Box\n> method value");
    let selector = AstSelector { item_patterns: vec!["Box.value".to_owned()], type_patterns: Vec::new() };
    assert_eq!(
        ast.render_with_selector(
            &selector,
            AstRenderOptions { include_signatures: true, ..AstRenderOptions::default() }
        )
        .unwrap(),
        "int value()"
    );
}

#[test]
fn scala_outline_lists_traits_and_defs() {
    let source = "trait Box {\n  def add(x: Int): Int = x + 1\n}\n";
    let ast = parse_file_ast("box.scala", source).unwrap();
    assert!(!ast.has_errors);
    assert_eq!(ast.items[0].kind, AstItemKind::Trait);
    assert_eq!(ast.render(AstRenderOptions::default()), "trait Box\n> def add");
}

#[test]
fn lua_functions_are_leaves() {
    let source = "local function outer(x)\n  return x\nend\n";
    let ast = parse_file_ast("nested.lua", source).unwrap();
    assert!(!ast.has_errors);
    assert_eq!(ast.render(AstRenderOptions::default()), "function outer");
    assert!(ast.items[0].children.is_empty());
}

#[test]
fn kotlin_outline_lists_classes_and_functions() {
    let source = "fun greet(name: String): String = name\n";
    let ast = parse_file_ast("greet.kt", source).unwrap();
    assert!(!ast.has_errors);
    assert_eq!(ast.items[0].kind, AstItemKind::Function);
    assert!(ast.render(AstRenderOptions::default()).starts_with("fun "));
    assert_eq!(
        ast.render(AstRenderOptions { include_signatures: true, ..AstRenderOptions::default() }),
        "fun greet(name: String): String = name"
    );
}
