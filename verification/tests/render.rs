use smartedit::error::SmartEditError;
use smartedit::outline::{
    dedent_source_block, language_name, normalize_indentation, parse_file_ast,
    resolve_rust_impl_target, text_lines, AstLanguage, AstLocationRange, AstRenderOptions,
    AstSelector, FileAst,
};

fn chars(s: &str) -> Vec<char> {
    s.chars().collect()
}

fn text(v: &[char]) -> String {
    v.iter().collect()
}

const NESTED: &str = "mod m {\n    mod n {\n        fn f() {}\n    }\n}\n";

#[test]
fn children_render_one_level_deeper() {
    let ast = FileAst::parse(AstLanguage::Rust, NESTED).unwrap();
    assert_eq!(ast.render(AstRenderOptions::default()), "mod m\n> mod n\n>> fn f");
}

#[test]
fn locations_are_zero_based_half_open_line_ranges() {
    let ast = FileAst::parse(AstLanguage::Rust, NESTED).unwrap();
    let rendered = ast.render(AstRenderOptions { include_locations: true, ..AstRenderOptions::default() });
    assert_eq!(rendered, "[0-5] mod m\n> [1-4] mod n\n>> [2-3] fn f");
}

#[test]
fn items_sharing_a_line_are_not_edit_ready() {
    let ast = FileAst::parse(AstLanguage::Rust, "fn a() {} fn b() {}\n").unwrap();
    let rendered = ast.render(AstRenderOptions { include_locations: true, ..AstRenderOptions::default() });
    assert_eq!(rendered, "[0-1 shared-line] fn a\n[0-1 shared-line] fn b");
    assert!(!ast.items[0].location.is_edit_ready);
}

#[test]
fn location_display_marks_shared_lines() {
    let shared = AstLocationRange { start_line: 3, end_line: 7, is_edit_ready: false };
    assert_eq!(shared.display(), "3-7 shared-line");
    let owned = AstLocationRange { start_line: 0, end_line: 12, is_edit_ready: true };
    assert_eq!(owned.display(), "0-12");
}

#[test]
fn selector_display_lists_item_then_type_patterns() {
    let selector = AstSelector {
        item_patterns: vec!["a".to_owned(), "b.*".to_owned()],
        type_patterns: vec!["T".to_owned()],
    };
    assert_eq!(selector.display(), "-s a, -s b.*, -S T");
    assert!(AstSelector::default().is_empty());
}

#[test]
fn selecting_a_type_takes_its_impl_and_members() {
    let ast = FileAst::parse(
        AstLanguage::Rust,
        "struct S;\nimpl S {\n    fn f(&self) {}\n}\nfn g() {}\n",
    )
    .unwrap();
    let selector = AstSelector { item_patterns: Vec::new(), type_patterns: vec!["S".to_owned()] };
    let rendered = ast.render_with_selector(&selector, AstRenderOptions::default()).unwrap();
    assert_eq!(rendered, "struct S\nimpl S\n> fn f");
    let selected = ast.select_items(&selector).unwrap();
    assert_eq!(selected.len(), 2);
}

#[test]
fn a_selected_item_is_taken_whole() {
    let ast = FileAst::parse(AstLanguage::Rust, NESTED).unwrap();
    let selector = AstSelector { item_patterns: vec!["m.n".to_owned()], type_patterns: Vec::new() };
    assert_eq!(
        ast.render_with_selector(&selector, AstRenderOptions::default()).unwrap(),
        "mod n\n> fn f"
    );
    let nested = AstSelector { item_patterns: vec!["m.n.f".to_owned()], type_patterns: Vec::new() };
    assert_eq!(ast.render_with_selector(&nested, AstRenderOptions::default()).unwrap(), "fn f");
}

#[test]
fn selecting_nothing_is_an_error() {
    let ast = FileAst::parse(AstLanguage::Rust, NESTED).unwrap();
    let selector = AstSelector { item_patterns: vec!["nothing".to_owned()], type_patterns: Vec::new() };
    assert_eq!(
        ast.render_with_selector(&selector, AstRenderOptions::default()),
        Err(SmartEditError::NoAstItemsMatched { selector: "-s nothing".to_owned() })
    );
}

#[test]
fn invalid_selector_patterns_are_refused() {
    let ast = FileAst::parse(AstLanguage::Rust, NESTED).unwrap();
    let selector = AstSelector { item_patterns: vec!["[m".to_owned()], type_patterns: Vec::new() };
    match ast.select_items(&selector) {
        Err(SmartEditError::InvalidAstSelectorPattern { pattern, .. }) => assert_eq!(pattern, "[m"),
        other => panic!("unexpected result: {other:?}"),
    }
}

#[test]
fn text_lines_split_like_str_lines() {
    let lines: Vec<String> = text_lines(&chars("a\r\nb\n\nc")).iter().map(|l| text(l)).collect();
    assert_eq!(lines, vec!["a", "b", "", "c"]);
    let lines: Vec<String> = text_lines(&chars("x\r")).iter().map(|l| text(l)).collect();
    assert_eq!(lines, vec!["x\r"]);
    assert!(text_lines(&chars("")).is_empty());
    assert_eq!(text_lines(&chars("end\n")).len(), 1);
}

#[test]
fn normalize_indentation_removes_shared_indentation_of_later_lines() {
    assert_eq!(text(&normalize_indentation(&chars("fn f() {\n        a\n    }"))), "fn f() {\n    a\n}");
    assert_eq!(text(&normalize_indentation(&chars("def f():\n    pass"))), "def f():\n    pass");
    assert_eq!(text(&normalize_indentation(&chars("one line"))), "one line");
    assert_eq!(text(&normalize_indentation(&chars("a\n\n    b\n      c"))), "a\n\nb\n  c");
}

#[test]
fn dedent_removes_the_source_indent_after_the_first_line() {
    assert_eq!(text(&dedent_source_block(&chars("x\n    y\n  z"), &chars("    "))), "x\ny\n  z");
}

#[test]
fn impl_targets_resolve_against_the_module_path() {
    let parent = chars("a.b");
    assert_eq!(text(&resolve_rust_impl_target(&chars("super.Foo"), Some(&parent))), "a.Foo");
    assert_eq!(text(&resolve_rust_impl_target(&chars("crate.m.T"), Some(&parent))), "m.T");
    assert_eq!(text(&resolve_rust_impl_target(&chars("self.T"), Some(&parent))), "a.b.T");
    assert_eq!(text(&resolve_rust_impl_target(&chars("T"), None)), "T");
    assert_eq!(text(&resolve_rust_impl_target(&chars(""), Some(&parent))), "");
}

#[test]
fn language_names_are_lower_case() {
    assert_eq!(language_name(AstLanguage::Rust), "rust");
    assert_eq!(language_name(AstLanguage::Tsx), "tsx");
    assert_eq!(language_name(AstLanguage::Kotlin), "kotlin");
}

#[test]
fn unknown_extensions_are_refused() {
    match parse_file_ast("notes.txt", "hello") {
        Err(SmartEditError::UnsupportedAstLanguage { path }) => assert_eq!(path, "notes.txt"),
        other => panic!("unexpected result: {other:?}"),
    }
}

#[test]
fn points_give_a_range_that_is_not_edit_ready() {
    let range = AstLocationRange::from_points((2, 4), (5, 1));
    assert_eq!(range, AstLocationRange { start_line: 2, end_line: 6, is_edit_ready: false });
    let range = AstLocationRange::from_points((0, 0), (3, 0));
    assert_eq!(range.display(), "0-3 shared-line");
}
