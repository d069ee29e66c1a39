use smartedit::outline::{AstLanguage, AstRenderOptions, AstSelector, FileAst};

    const JAVASCRIPT_SAMPLE: &str = r#"
/** module docs */

/** class docs */
class Greeter {
    /** method docs */
    greet(name) {
        function normalize(value) {
            return value.trim();
        }

        return normalize(name);
    }
}

export const run = async (task) => {
    return task();
};
"#;

    const TYPESCRIPT_SAMPLE: &str = r#"
/** module docs */

/** interface docs */
export interface Greeter {
    /** method docs */
    greet(name: string): string;
}

export class Service {
    run(task: string): string {
        const normalize = (value: string) => value.trim();
        return normalize(task);
    }
}

export type Task = { id: string };
export enum Mode {
    Dev,
    Prod,
}
"#;

    #[test]
    fn renders_basic_javascript_outline() {
        let ast = FileAst::parse(AstLanguage::JavaScript, JAVASCRIPT_SAMPLE).unwrap();

        assert_eq!(
            ast.render(AstRenderOptions::default()),
            "class Greeter\n> method greet\n>> function normalize\nasync function run"
        );
    }

#[test]
    fn renders_javascript_signatures_and_docs() {
        let ast = FileAst::parse(AstLanguage::JavaScript, JAVASCRIPT_SAMPLE).unwrap();

        assert_eq!(
            ast.render(AstRenderOptions {
                include_signatures: true,
                include_docs: true,
                ..AstRenderOptions::default()
            }),
            "/** module docs */\n/** class docs */\nclass Greeter\n> /** method docs */\n> greet(name)\n>> function normalize(value)\nexport const run = async (task) =>"
        );
    }

#[test]
    fn selects_javascript_nested_items_by_glob_path() {
        let ast = FileAst::parse(AstLanguage::JavaScript, JAVASCRIPT_SAMPLE).unwrap();

        let rendered = ast
            .render_with_selector(
                &AstSelector {
                    item_patterns: vec!["Greeter.greet.*".to_owned()],
                    type_patterns: Vec::new(),
                },
                AstRenderOptions::default(),
            )
            .unwrap();

        assert_eq!(rendered, "function normalize");
    }

#[test]
    fn javascript_comment_ownership_uses_comment_ranges_and_adjacency() {
        let source = r#"/** file docs */

/** first docs */
function first() {}
/* inline docs */ function inline_comment() {}
function second() {}
"#;
        let ast = FileAst::parse(AstLanguage::JavaScript, source).unwrap();

        assert_eq!(
            ast.render(AstRenderOptions {
                include_signatures: true,
                include_docs: true,
                ..AstRenderOptions::default()
            }),
            "/** file docs */\n/** first docs */\nfunction first()\n/* inline docs */\nfunction inline_comment()\nfunction second()"
        );

        let adjacent = FileAst::parse(
            AstLanguage::JavaScript,
            "/** adjacent item docs */\nfunction documented() {}\n",
        )
        .unwrap();
        assert_eq!(adjacent.root_docs, None);
        assert_eq!(
            adjacent.render(AstRenderOptions {
                include_signatures: true,
                include_docs: true,
                ..AstRenderOptions::default()
            }),
            "/** adjacent item docs */\nfunction documented()"
        );
    }

#[test]
    fn javascript_function_summaries_derive_modifiers_from_syntax_nodes() {
        let source = r#"function multiplies(value = left * right) {}
function async_parameter(async = 1) {}
const arrow_parameter = (async = 1) => {};
async function fetch_value() {}
function* generate() {}
async function* generate_async() {}
class Worker {
    static *generate() {}
    async *generateAsync() {}
    static async *generateBoth() {}
    static() {}
    async() {}
}
"#;
        let ast = FileAst::parse(AstLanguage::JavaScript, source).unwrap();

        assert_eq!(
            ast.render(AstRenderOptions::default()),
            "function multiplies\nfunction async_parameter\nfunction arrow_parameter\nasync function fetch_value\nfunction* generate\nasync function* generate_async\nclass Worker\n> static method* generate\n> async method* generateAsync\n> static async method* generateBoth\n> method static\n> method async"
        );
    }

#[test]
    fn javascript_discovers_callable_class_fields_and_object_apis() {
        let source = r#"class Worker {
    handler = () => {};
    #privateHandler = function () {};
    static build = async () => {};
}

const api = {
    run() {},
    stop: () => {},
    nested: {
        ping: function* () {},
    },
};
"#;
        let ast = FileAst::parse(AstLanguage::JavaScript, source).unwrap();

        assert_eq!(
            ast.render(AstRenderOptions::default()),
            "class Worker\n> method handler\n> method #privateHandler\n> static async method build\nobject api\n> method run\n> function stop\n> object nested\n>> function* ping"
        );
        assert_eq!(
            ast.render_with_selector(
                &AstSelector {
                    item_patterns: vec!["Worker.handler".to_owned(), "api.nested.*".to_owned()],
                    type_patterns: Vec::new(),
                },
                AstRenderOptions::default(),
            )
            .unwrap(),
            "method handler\nfunction* ping"
        );
    }

#[test]
    fn javascript_anonymous_default_exports_use_a_stable_default_name() {
        let fixtures = [
            ("export default () => {};", "function default"),
            ("export default async () => {};", "async function default"),
            ("export default function () {};", "function default"),
            ("export default function* () {};", "function* default"),
            ("export default class {};", "class default"),
            ("export default () => <main />;", "function default"),
        ];

        for (source, expected) in fixtures {
            let ast = FileAst::parse(AstLanguage::JavaScript, source).unwrap();
            assert!(!ast.has_errors, "unexpected parse error for {source:?}");
            assert_eq!(ast.render(AstRenderOptions::default()), expected);
            assert_eq!(
                ast.render_with_selector(
                    &AstSelector {
                        item_patterns: vec!["default".to_owned()],
                        type_patterns: Vec::new(),
                    },
                    AstRenderOptions::default(),
                )
                .unwrap(),
                expected
            );
        }

        let named =
            FileAst::parse(AstLanguage::JavaScript, "export default function App() {}").unwrap();
        assert_eq!(named.render(AstRenderOptions::default()), "function App");
    }

#[test]
    fn javascript_parenthesized_values_are_dispatched_without_losing_outer_ownership() {
        let source = r#"const wrapped = (() => {});
const api = ({ run() {}, nested: ({ ping: (() => {}) }) });
assigned = ((function () {}));
(wrappedAssignment = (() => {}));
class Worker { handler = ((() => {})); }
export default ((() => {}));
"#;
        let ast = FileAst::parse(AstLanguage::JavaScript, source).unwrap();
        assert!(!ast.has_errors);
        assert_eq!(
            ast.render(AstRenderOptions::default()),
            "function wrapped\nobject api\n> method run\n> object nested\n>> function ping\nfunction assigned\nfunction wrappedAssignment\nclass Worker\n> method handler\nfunction default"
        );
        assert_eq!(
            ast.render_with_selector(
                &AstSelector {
                    item_patterns: vec!["default".to_owned()],
                    type_patterns: Vec::new(),
                },
                AstRenderOptions {
                    include_function_bodies: true,
                    include_locations: true,
                    ..AstRenderOptions::default()
                },
            )
            .unwrap(),
            "[5-6] export default ((() => {}));"
        );
        assert_eq!(
            ast.render_with_selector(
                &AstSelector {
                    item_patterns: vec!["Worker.handler".to_owned()],
                    type_patterns: Vec::new(),
                },
                AstRenderOptions {
                    include_function_bodies: true,
                    ..AstRenderOptions::default()
                },
            )
            .unwrap(),
            "handler = ((() => {}));"
        );
    }

#[test]
    fn javascript_member_assignments_preserve_qualified_paths() {
        let source = r#"module.exports = function () {};
Service.run = () => {};
Other.run = () => {};
Registry["start"] = () => {};
Service.prototype.stop = () => {};
this.handle = () => {};
class Owner {
    #private;
    setup() {
        this.#private = () => {};
    }
}
"#;
        let ast = FileAst::parse(AstLanguage::JavaScript, source).unwrap();

        assert_eq!(
            ast.render(AstRenderOptions::default()),
            "function module.exports\nfunction Service.run\nfunction Other.run\nfunction Registry.start\nfunction Service.prototype.stop\nfunction this.handle\nclass Owner\n> method setup\n>> function this.#private"
        );
        assert_eq!(
            ast.render_with_selector(
                &AstSelector {
                    item_patterns: vec!["Service.run".to_owned()],
                    type_patterns: Vec::new(),
                },
                AstRenderOptions::default(),
            )
            .unwrap(),
            "function Service.run"
        );
    }

#[test]
    fn javascript_multi_declarators_render_complete_declarations() {
        let source = r#"/** callables */
export const first = () => {}, ignored = 1,
    second = function () {};
"#;
        let ast = FileAst::parse(AstLanguage::JavaScript, source).unwrap();

        assert_eq!(
            ast.render(AstRenderOptions {
                include_signatures: true,
                include_docs: true,
                ..AstRenderOptions::default()
            }),
            "/** callables */\nexport const first = () =>\nexport const second = function ()"
        );
        let complete_declaration =
            "export const first = () => {}, ignored = 1,\nsecond = function () {};";
        assert_eq!(
            ast.render(AstRenderOptions {
                include_function_bodies: true,
                ..AstRenderOptions::default()
            }),
            format!("{complete_declaration}\n{complete_declaration}")
        );
        assert_eq!(ast.items[0].location, ast.items[1].location);
    }

#[test]
    fn javascript_and_typescript_callables_in_any_multi_declaration_are_not_edit_ready() {
        for (language, source) in [
            (
                AstLanguage::JavaScript,
                "const callable = () => {}, scalar = 1;\nconst other = function () {}, { value } = source;\nconst standalone = () => {};\n",
            ),
            (
                AstLanguage::TypeScript,
                "const callable = (): void => {}, scalar: number = 1;\nconst other = function (): void {}, { value } = source;\nconst standalone = (): void => {};\n",
            ),
        ] {
            let ast = FileAst::parse(language, source).unwrap();
            assert!(!ast.has_errors);
            assert_eq!(
                ast.items
                    .iter()
                    .map(|item| item.name.as_deref().unwrap())
                    .collect::<Vec<_>>(),
                ["callable", "other", "standalone"]
            );
            assert!(!ast.items[0].location.is_edit_ready);
            assert!(!ast.items[1].location.is_edit_ready);
            assert!(ast.items[2].location.is_edit_ready);
            assert!(ast.items[0].location.display().ends_with(" shared-line"));
            assert!(ast.items[1].location.display().ends_with(" shared-line"));
        }
    }

#[test]
    fn malformed_javascript_reports_errors_and_shared_line_locations_are_annotated() {
        let malformed = FileAst::parse(
            AstLanguage::JavaScript,
            "function valid() {}\nfunction broken( {}\n",
        )
        .unwrap();
        assert!(malformed.has_errors);

        let ast = FileAst::parse(
            AstLanguage::JavaScript,
            "const first = () => {}, second = () => {};\n",
        )
        .unwrap();
        assert_eq!(
            ast.render(AstRenderOptions {
                include_locations: true,
                ..AstRenderOptions::default()
            }),
            "[0-1 shared-line] function first\n[0-1 shared-line] function second"
        );
    }

#[test]
    fn renders_basic_typescript_outline() {
        let ast = FileAst::parse(AstLanguage::TypeScript, TYPESCRIPT_SAMPLE).unwrap();

        assert_eq!(
            ast.render(AstRenderOptions::default()),
            "interface Greeter\n> method greet\nclass Service\n> method run\n>> function normalize\ntype Task\nenum Mode"
        );
    }

#[test]
    fn renders_typescript_signatures_and_docs() {
        let ast = FileAst::parse(AstLanguage::TypeScript, TYPESCRIPT_SAMPLE).unwrap();

        assert_eq!(
            ast.render(AstRenderOptions {
                include_signatures: true,
                include_docs: true,
                ..AstRenderOptions::default()
            }),
            "/** module docs */\n/** interface docs */\nexport interface Greeter\n> /** method docs */\n> greet(name: string): string;\nexport class Service\n> run(task: string): string\n>> const normalize = (value: string) =>\nexport type Task = { id: string };\nexport enum Mode"
        );
    }

#[test]
    fn selects_typescript_type_and_members() {
        let ast = FileAst::parse(AstLanguage::TypeScript, TYPESCRIPT_SAMPLE).unwrap();

        let rendered = ast
            .render_with_selector(
                &AstSelector {
                    item_patterns: Vec::new(),
                    type_patterns: vec!["Service".to_owned()],
                },
                AstRenderOptions::default(),
            )
            .unwrap();

        assert_eq!(
            rendered,
            "class Service\n> method run\n>> function normalize"
        );
    }

#[test]
    fn typescript_docs_are_range_safe_and_exclusively_owned() {
        for language in [AstLanguage::TypeScript, AstLanguage::Tsx] {
            for source in [
                "",
                "\n",
                " \t\r\n",
                "// banner\n",
                "/** banner */\n",
                "// banner\r\n",
                "/** banner */",
                "/* banner */ export interface Inline { value: string }\n",
            ] {
                let ast = FileAst::parse(language, source).unwrap();
                assert!(!ast.has_errors, "unexpected parse error for {source:?}");
                let _ = ast.render(AstRenderOptions {
                    include_docs: true,
                    ..AstRenderOptions::default()
                });
            }
        }

        let ast = FileAst::parse(
            AstLanguage::TypeScript,
            "/** API contract */\nexport interface API { run(): void }\n",
        )
        .unwrap();
        assert_eq!(
            ast.render(AstRenderOptions {
                include_signatures: true,
                include_docs: true,
                ..AstRenderOptions::default()
            }),
            "/** API contract */\nexport interface API\n> run(): void"
        );
    }

#[test]
    fn typescript_ambient_declarations_are_complete_and_selectable() {
        let source = r#"/** declarations */
declare const version: string;
declare function parse(input: string): number;
declare abstract class Driver<T> {
    abstract connect(url: string): Promise<T>;
}
declare interface Legacy { old(): void }
declare type Id = string | number;
declare const enum AmbientMode { A, B }
declare namespace SDK {
    function create(): Driver<string>;
    namespace Inner { const name: string; }
}
declare module "virtual-package" { export function boot(): void; }
declare global { interface Window { injected: boolean } }
export declare function exported<T>(value: T): T;
"#;
        let ast = FileAst::parse(AstLanguage::TypeScript, source).unwrap();
        assert!(!ast.has_errors);
        assert_eq!(
            ast.render(AstRenderOptions::default()),
            "const version\nfunction parse\nabstract class Driver\n> abstract method connect\ninterface Legacy\n> method old\ntype Id\nconst enum AmbientMode\nnamespace SDK\n> function create\n> namespace Inner\n>> const name\nmodule virtual-package\n> function boot\nmodule global\n> interface Window\n>> property injected\nfunction exported"
        );

        let signatures = ast.render(AstRenderOptions {
            include_signatures: true,
            include_docs: true,
            ..AstRenderOptions::default()
        });
        for declaration in [
            "/** declarations */\ndeclare const version: string;",
            "declare function parse(input: string): number;",
            "declare abstract class Driver<T>",
            "declare namespace SDK",
            "declare module \"virtual-package\"",
            "declare global",
            "export declare function exported<T>(value: T): T;",
        ] {
            assert!(
                signatures.contains(declaration),
                "missing declaration {declaration:?} in {signatures}"
            );
        }
        assert_eq!(
            ast.render_with_selector(
                &AstSelector {
                    item_patterns: vec!["SDK.Inner.name".to_owned()],
                    type_patterns: Vec::new(),
                },
                AstRenderOptions {
                    include_signatures: true,
                    ..AstRenderOptions::default()
                },
            )
            .unwrap(),
            "const name: string;"
        );
        assert_eq!(
            ast.render_with_selector(
                &AstSelector {
                    item_patterns: vec!["virtual-package.boot".to_owned()],
                    type_patterns: Vec::new(),
                },
                AstRenderOptions::default(),
            )
            .unwrap(),
            "function boot"
        );
    }

#[test]
    fn typescript_declaration_exports_and_parameter_properties_are_represented() {
        let ast = FileAst::parse(
            AstLanguage::TypeScript,
            "export as namespace Widget;\nexport = Widget;\ndeclare namespace Widget { function create(): Widget; }\ndeclare module \"asset\" { const content: string; export default content; }\nclass Service { constructor(public readonly dependency: Dependency, plain: string, @inject private optional?: number) {} }\n",
        )
        .unwrap();
        assert!(!ast.has_errors);

        let signatures = ast.render(AstRenderOptions {
            include_signatures: true,
            ..AstRenderOptions::default()
        });
        for expected in [
            "export as namespace Widget;",
            "export = Widget;",
            "export default content;",
            "> public readonly dependency: Dependency",
            "> @inject private optional?: number",
        ] {
            assert!(
                signatures.contains(expected),
                "missing {expected:?} in {signatures}"
            );
        }
        let basic = ast.render(AstRenderOptions::default());
        assert!(basic.contains("> property dependency"));
        assert!(basic.contains("> property optional"));
        assert!(!basic.contains("property plain"));

        for (selector, expected) in [
            ("export-as-namespace", "export as namespace Widget;"),
            ("export=", "export = Widget;"),
        ] {
            assert_eq!(
                ast.render_with_selector(
                    &AstSelector {
                        item_patterns: vec![selector.to_owned()],
                        type_patterns: Vec::new(),
                    },
                    AstRenderOptions::default(),
                )
                .unwrap(),
                expected
            );
        }

        assert_eq!(
            ast.render_with_selector(
                &AstSelector {
                    item_patterns: vec!["Service.dependency".to_owned()],
                    type_patterns: Vec::new(),
                },
                AstRenderOptions {
                    include_signatures: true,
                    include_locations: true,
                    ..AstRenderOptions::default()
                },
            )
            .unwrap(),
            "[4-5 shared-line] public readonly dependency: Dependency"
        );
        assert_eq!(
            ast.render_with_selector(
                &AstSelector {
                    item_patterns: vec!["asset.default".to_owned()],
                    type_patterns: Vec::new(),
                },
                AstRenderOptions::default(),
            )
            .unwrap(),
            "export default content;"
        );

        let declaration_file = FileAst::parse(
            AstLanguage::TypeScript,
            "declare class Ambient {\n    constructor(\n        public readonly x: number,\n        protected y?: string,\n        value?: boolean,\n    );\n}\n",
        )
        .unwrap();
        assert!(!declaration_file.has_errors);
        let ambient_basic = declaration_file.render(AstRenderOptions::default());
        assert!(ambient_basic.contains("> property x"));
        assert!(ambient_basic.contains("> property y"));
        assert!(!ambient_basic.contains("property value"));
        for (name, expected) in [
            ("x", "public readonly x: number"),
            ("y", "protected y?: string"),
        ] {
            assert_eq!(
                declaration_file
                    .render_with_selector(
                        &AstSelector {
                            item_patterns: vec![format!("Ambient.{name}")],
                            type_patterns: Vec::new(),
                        },
                        AstRenderOptions {
                            include_signatures: true,
                            ..AstRenderOptions::default()
                        },
                    )
                    .unwrap(),
                expected
            );
        }
    }

#[test]
    fn typescript_export_bindings_are_recognized_from_syntax_across_trivia() {
        let source = r#"export as
/* namespace bridge */ namespace
Widget;
export /* assignment bridge */ =
Widget;
declare module "asset" {
    const content: string;
    export /* default bridge */ default
    content;
}
"#;
        let ast = FileAst::parse(AstLanguage::TypeScript, source).unwrap();
        assert!(!ast.has_errors);

        for (selector, fragments) in [
            ("export-as-namespace", &["namespace bridge", "Widget;"][..]),
            ("export=", &["assignment bridge", "=", "Widget;"][..]),
            ("asset.default", &["default bridge", "content;"][..]),
        ] {
            let rendered = ast
                .render_with_selector(
                    &AstSelector {
                        item_patterns: vec![selector.to_owned()],
                        type_patterns: Vec::new(),
                    },
                    AstRenderOptions {
                        include_signatures: true,
                        ..AstRenderOptions::default()
                    },
                )
                .unwrap();
            for fragment in fragments {
                assert!(
                    rendered.contains(fragment),
                    "missing {fragment:?} for {selector:?} in {rendered:?}"
                );
            }
        }
    }

#[test]
    fn typescript_namespaces_overloads_and_abstract_summaries_are_structural() {
        let source = r#"namespace Simple { export function overloaded(value: string): string; }
namespace A.B { export const value = () => 1; }
module Legacy { export function start(): void; }
export namespace Outer { export namespace Inner { export const value = () => 1; } }
function overloaded(value: string): string;
function overloaded(value: number): number;
function overloaded(value: string | number) { return value; }
export abstract class ExportedAbstract { abstract run(): void; }
abstract class LocalAbstract { abstract stop(): void; }
const enum Mode { A }
"#;
        let ast = FileAst::parse(AstLanguage::TypeScript, source).unwrap();
        assert!(!ast.has_errors);
        let basic = ast.render(AstRenderOptions::default());
        for expected in [
            "namespace Simple\n> function overloaded",
            "namespace A.B\n> function value",
            "module Legacy\n> function start",
            "namespace Outer\n> namespace Inner\n>> function value",
            "abstract class ExportedAbstract\n> abstract method run",
            "abstract class LocalAbstract\n> abstract method stop",
            "const enum Mode",
        ] {
            assert!(basic.contains(expected), "missing {expected:?} in {basic}");
        }
        assert_eq!(basic.matches("function overloaded").count(), 4);
        assert_eq!(
            ast.render_with_selector(
                &AstSelector {
                    item_patterns: vec!["overloaded".to_owned()],
                    type_patterns: Vec::new(),
                },
                AstRenderOptions {
                    include_signatures: true,
                    ..AstRenderOptions::default()
                },
            )
            .unwrap(),
            "function overloaded(value: string): string;\nfunction overloaded(value: number): number;\nfunction overloaded(value: string | number)"
        );
        assert_eq!(
            ast.render_with_selector(
                &AstSelector {
                    item_patterns: vec!["A.B.value".to_owned()],
                    type_patterns: Vec::new(),
                },
                AstRenderOptions::default(),
            )
            .unwrap(),
            "function value"
        );
    }

#[test]
    fn typescript_decorated_member_selection_owns_decorators_and_locations() {
        let source = r#"class Decorated {
    /** method docs */
    @first
    // between decorators
    @second
    // after final decorator
    method<T>(value: T): T { return value; }

    @field
    handler = () => 1;

    @observe
    get current(): number { return 1; }
}
"#;
        let ast = FileAst::parse(AstLanguage::TypeScript, source).unwrap();
        assert!(!ast.has_errors);
        let selector = AstSelector {
            item_patterns: vec!["Decorated.method".to_owned()],
            type_patterns: Vec::new(),
        };
        assert_eq!(
            ast.render_with_selector(
                &selector,
                AstRenderOptions {
                    include_signatures: true,
                    include_docs: true,
                    include_locations: true,
                    ..AstRenderOptions::default()
                },
            )
            .unwrap(),
            "/** method docs */\n[2-7] @first\n      // between decorators\n      @second\n      // after final decorator\n      method<T>(value: T): T"
        );
        assert_eq!(
            ast.render_with_selector(
                &selector,
                AstRenderOptions {
                    include_function_bodies: true,
                    ..AstRenderOptions::default()
                },
            )
            .unwrap(),
            "@first\n// between decorators\n@second\n// after final decorator\nmethod<T>(value: T): T { return value; }"
        );
        assert_eq!(
            ast.render_with_selector(
                &AstSelector {
                    item_patterns: vec!["Decorated.handler".to_owned()],
                    type_patterns: Vec::new(),
                },
                AstRenderOptions {
                    include_function_bodies: true,
                    ..AstRenderOptions::default()
                },
            )
            .unwrap(),
            "@field\nhandler = () => 1;"
        );
        assert_eq!(
            ast.render_with_selector(
                &AstSelector {
                    item_patterns: vec!["Decorated.current".to_owned()],
                    type_patterns: Vec::new(),
                },
                AstRenderOptions {
                    include_function_bodies: true,
                    ..AstRenderOptions::default()
                },
            )
            .unwrap(),
            "@observe\nget current(): number { return 1; }"
        );

        for selector in ["Decorated.handler", "Decorated.current"] {
            let rendered = ast
                .render_with_selector(
                    &AstSelector {
                        item_patterns: vec![selector.to_owned()],
                        type_patterns: Vec::new(),
                    },
                    AstRenderOptions {
                        include_signatures: true,
                        include_locations: true,
                        ..AstRenderOptions::default()
                    },
                )
                .unwrap();
            assert!(
                rendered.starts_with('['),
                "missing location in {rendered:?}"
            );
            assert!(rendered.contains('@'), "missing decorator in {rendered:?}");
        }
    }

#[test]
    fn typescript_decorated_classes_own_inter_decorator_comments() {
        let source = r#"/** service docs */
@sealed
// decorator bridge
@registered()
// final decorator bridge
class Service {
    run(): void {}
}
"#;
        let ast = FileAst::parse(AstLanguage::TypeScript, source).unwrap();
        assert!(!ast.has_errors);
        let selector = AstSelector {
            item_patterns: Vec::new(),
            type_patterns: vec!["Service".to_owned()],
        };
        let signature = ast
            .render_with_selector(
                &selector,
                AstRenderOptions {
                    include_signatures: true,
                    include_docs: true,
                    include_locations: true,
                    ..AstRenderOptions::default()
                },
            )
            .unwrap();
        assert!(signature.starts_with("/** service docs */\n[1-8] @sealed"));
        for fragment in [
            "// decorator bridge",
            "@registered()",
            "// final decorator bridge",
            "class Service",
        ] {
            assert!(signature.contains(fragment), "{signature:?}");
        }

        let body = ast
            .render_with_selector(
                &selector,
                AstRenderOptions {
                    include_type_bodies: true,
                    ..AstRenderOptions::default()
                },
            )
            .unwrap();
        assert!(body.starts_with(
            "@sealed\n// decorator bridge\n@registered()\n// final decorator bridge\nclass Service"
        ));
    }

#[test]
    fn typescript_members_tsx_defaults_and_qualified_type_selectors_are_supported() {
        let source = r#"namespace One {
    export interface Config {
        readonly prop?: string;
        (value: string): number;
        new <T>(value: T): Config;
        [key: string]: unknown;
    }
}
namespace Two { export interface Config { other: boolean } }
class Service {
    public readonly size: number;
    private handler = () => <aside />;
    accessor value: string;
    [computed]: string;
    #secret: number;
    constructor(public readonly dependency: Dependency) {}
}
export default <T,>(props: { value: T }) => <main>{props.value}</main>;
"#;
        let ast = FileAst::parse(AstLanguage::Tsx, source).unwrap();
        assert!(!ast.has_errors);
        let basic = ast.render(AstRenderOptions::default());
        for expected in [
            "property prop",
            "call signature",
            "construct signature",
            "index signature",
            "field size",
            "method handler",
            "accessor value",
            "field [computed]",
            "field #secret",
            "method constructor",
            "function default",
        ] {
            assert!(basic.contains(expected), "missing {expected:?} in {basic}");
        }
        let one = ast
            .render_with_selector(
                &AstSelector {
                    item_patterns: Vec::new(),
                    type_patterns: vec!["One.Config".to_owned()],
                },
                AstRenderOptions::default(),
            )
            .unwrap();
        assert!(one.starts_with("interface Config\n> property prop"));
        assert!(!one.contains("other"));
        let qualified_glob = ast
            .render_with_selector(
                &AstSelector {
                    item_patterns: Vec::new(),
                    type_patterns: vec!["One.*".to_owned()],
                },
                AstRenderOptions::default(),
            )
            .unwrap();
        assert_eq!(qualified_glob, one);
        let bare = ast
            .render_with_selector(
                &AstSelector {
                    item_patterns: Vec::new(),
                    type_patterns: vec!["Config".to_owned()],
                },
                AstRenderOptions::default(),
            )
            .unwrap();
        assert!(bare.contains("property prop"));
        assert!(bare.contains("property other"));
        assert_eq!(
            ast.render_with_selector(
                &AstSelector {
                    item_patterns: vec!["default".to_owned()],
                    type_patterns: Vec::new(),
                },
                AstRenderOptions {
                    include_signatures: true,
                    ..AstRenderOptions::default()
                },
            )
            .unwrap(),
            "export default <T,>(props: { value: T }) =>"
        );
    }
