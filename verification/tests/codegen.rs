use dynamo_core::codegen::parser::{ConstantDef, ModuleDef, ParseError, PrometheusParser};
use dynamo_core::codegen::python::{
    generate_classes, generate_python_file, print_module_summary, render_class,
};

/// A parent whose constants all live in nested `pub mod` blocks.
const NESTED_SOURCE: &str = r#"
/// Transport-specific metrics (TCP / NATS)
pub mod transport {
    pub mod tcp {
        pub const BYTES_SENT_TOTAL: &str = "tcp_bytes_sent_total";
        pub const ERRORS_TOTAL: &str = "tcp_errors_total";
    }
    pub mod nats {
        pub const ERRORS_TOTAL: &str = "nats_errors_total";
    }
}
"#;

fn parse(src: &str) -> PrometheusParser {
    PrometheusParser::parse_file(src).expect("source should parse")
}

fn child<'a>(module: &'a ModuleDef, name: &str) -> &'a ModuleDef {
    module
        .submodules
        .iter()
        .find(|m| m.name == name)
        .unwrap_or_else(|| panic!("expected submodule `{name}`"))
}

fn pairs(module: &ModuleDef) -> Vec<(&str, &str)> {
    module
        .constants
        .iter()
        .map(|c| (c.name.as_str(), c.value.as_str()))
        .collect()
}

#[test]
fn nested_modules_are_parsed_with_their_constants() {
    let parser = parse(NESTED_SOURCE);
    let transport = parser.module("transport").unwrap();

    assert_eq!(
        transport.submodules.len(),
        2,
        "transport must carry both nested modules, got {:?}",
        transport
            .submodules
            .iter()
            .map(|m| &m.name)
            .collect::<Vec<_>>()
    );

    let tcp = child(transport, "tcp");
    assert_eq!(
        pairs(tcp),
        vec![
            ("BYTES_SENT_TOTAL", "tcp_bytes_sent_total"),
            ("ERRORS_TOTAL", "tcp_errors_total"),
        ]
    );
    assert_eq!(child(transport, "nats").constants.len(), 1);
}

#[test]
fn submodules_are_sorted_by_name() {
    let parser = parse(NESTED_SOURCE);
    let names: Vec<&str> = parser
        .module("transport")
        .unwrap()
        .submodules
        .iter()
        .map(|m| m.name.as_str())
        .collect();
    assert_eq!(
        names,
        vec!["nats", "tcp"],
        "source declares tcp before nats; output must still be sorted"
    );
}

#[test]
fn nested_label_value_modules_keep_raw_values() {
    let parser = parse(
        r#"
pub mod frontend_service {
    pub const REQUESTS_TOTAL: &str = "requests_total";
    /// Error type label values
    pub mod error_type {
        pub const NONE: &str = "";
        pub const VALIDATION: &str = "validation";
    }
}
"#,
    );
    let frontend = parser.module("frontend_service").unwrap();
    assert_eq!(frontend.constants.len(), 1, "parent constants still parse");

    let error_type = child(frontend, "error_type");
    assert_eq!(error_type.doc_comment, "Error type label values");
    assert_eq!(
        pairs(error_type),
        vec![("NONE", ""), ("VALIDATION", "validation")]
    );
}

#[test]
fn recursion_is_deep_and_skips_private_modules() {
    let parser = parse(
        r#"
pub mod outer {
    pub mod middle {
        pub mod inner {
            pub const LEAF: &str = "leaf_value";
        }
    }
    mod private_mod {
        pub const HIDDEN: &str = "hidden_value";
    }
}
"#,
    );
    let outer = parser.module("outer").unwrap();
    assert_eq!(
        outer.submodules.len(),
        1,
        "the private module must not be exported"
    );
    let inner = child(child(outer, "middle"), "inner");
    assert_eq!(inner.constants[0].value, "leaf_value");
}

#[test]
fn const_and_submodule_name_collision_is_rejected() {
    let err = PrometheusParser::parse_file(
        r#"
pub mod frontend_service {
    pub const status: &str = "status_value";
    pub mod status {
        pub const SUCCESS: &str = "success";
    }
}
"#,
    )
    .err()
    .expect("a const/mod name collision must not parse silently");

    let msg = err.message();
    assert!(
        msg.contains("frontend_service") && msg.contains("`status`"),
        "error must name the module and the clashing symbol, got: {msg}"
    );
    assert_eq!(
        msg,
        "module `frontend_service` declares both a constant and a nested module named `status`; \
         Python cannot express both as attributes of one class. Rename one of them (the constant \
         currently resolves to \"status_value\")."
    );
}

#[test]
fn flat_modules_are_unchanged() {
    let parser = parse(
        r#"
pub mod kvrouter {
    pub const KV_CACHE_EVENTS_APPLIED: &str = "kv_cache_events_applied";
}
"#,
    );
    let kvrouter = parser.module("kvrouter").unwrap();
    assert!(kvrouter.submodules.is_empty());
    assert_eq!(kvrouter.constants.len(), 1);
}

fn constant(name: &str, value: &str) -> ConstantDef {
    ConstantDef {
        name: name.to_string(),
        value: value.to_string(),
        doc_comment: String::new(),
    }
}

fn module(name: &str, constants: Vec<ConstantDef>, submodules: Vec<ModuleDef>) -> ModuleDef {
    ModuleDef {
        name: name.to_string(),
        constants,
        doc_comment: String::new(),
        is_macro_generated: false,
        macro_prefix: None,
        submodules,
    }
}

fn render(module: &ModuleDef) -> String {
    let mut lines = Vec::new();
    render_class(module, 0, &mut lines);
    lines.join("\n")
}

#[test]
fn nested_class_is_indented_inside_its_parent() {
    let rendered = render(&module(
        "transport",
        vec![],
        vec![module(
            "tcp",
            vec![constant("ERRORS_TOTAL", "tcp_errors_total")],
            vec![],
        )],
    ));

    assert_eq!(
        rendered,
        "class transport:\n\
         \n\
         \x20   class tcp:\n\
         \n\
         \x20       ERRORS_TOTAL = \"tcp_errors_total\""
    );
}

#[test]
fn indentation_compounds_with_depth() {
    let rendered = render(&module(
        "outer",
        vec![],
        vec![module(
            "middle",
            vec![],
            vec![module(
                "inner",
                vec![constant("LEAF", "leaf_value")],
                vec![],
            )],
        )],
    ));

    assert!(
        rendered.contains("\n        class inner:"),
        "inner class should sit at 8 spaces, got:\n{rendered}"
    );
    assert!(
        rendered.contains("\n            LEAF = \"leaf_value\""),
        "leaf constant should sit at 12 spaces, got:\n{rendered}"
    );
}

#[test]
fn parent_constants_precede_nested_classes() {
    let rendered = render(&module(
        "frontend_service",
        vec![constant("REQUESTS_TOTAL", "requests_total")],
        vec![module(
            "status",
            vec![constant("SUCCESS", "success")],
            vec![],
        )],
    ));

    let const_at = rendered.find("REQUESTS_TOTAL").expect("parent constant");
    let class_at = rendered.find("class status:").expect("nested class");
    assert!(
        const_at < class_at,
        "parent constants must precede nested classes, got:\n{rendered}"
    );
}

#[test]
fn empty_module_emits_pass() {
    assert_eq!(
        render(&module("empty", vec![], vec![])),
        "class empty:\n    pass"
    );
}

#[test]
fn docstring_only_module_does_not_emit_pass() {
    let mut m = module("documented", vec![], vec![]);
    m.doc_comment = "Only a doc comment".to_string();
    let rendered = render(&m);
    assert_eq!(
        rendered,
        "class documented:\n    \"\"\"Only a doc comment\"\"\""
    );
    assert!(!rendered.contains("pass"));
}

#[test]
fn macro_prefix_applies_to_own_constants_only() {
    let parser = parse(
        r#"
pub mod work_handler {
    macro_rules! work_handler_name {
        ($name:expr) => { concat!("dynamo_work_", $name) };
    }
    pub const PREFIX: &str = "dynamo_work_";
    pub const REQUESTS: &str = work_handler_name!("requests_total");
    pub const ALREADY: &str = "dynamo_work_errors";
    pub mod label {
        pub const KIND: &str = "kind";
    }
}
"#,
    );
    let module = parser.module("work_handler").unwrap();
    assert!(module.is_macro_generated);
    assert_eq!(module.macro_prefix.as_deref(), Some("dynamo_work"));
    assert_eq!(
        pairs(module),
        vec![
            ("PREFIX", "dynamo_work_"),
            ("REQUESTS", "dynamo_work_requests_total"),
            ("ALREADY", "dynamo_work_errors"),
        ]
    );
    assert_eq!(pairs(child(module, "label")), vec![("KIND", "kind")]);
}

#[test]
fn values_come_from_literals_macros_and_method_calls() {
    let parser = parse(
        r#"
pub mod m {
    /// first
    /// second
    pub const A: &str = concat!("left_", "right");
    pub const B: &'static str = "b".trim();
    const HIDDEN: &str = "hidden";
    pub const NUMBER: usize = 4;
}
"#,
    );
    let m = parser.module("m").unwrap();
    assert_eq!(pairs(m), vec![("A", "left_right"), ("B", "b")]);
    assert_eq!(m.constants[0].doc_comment, "first\nsecond");
    assert_eq!(
        render(m),
        "class m:\n\n    # first\n    # second\n    A = \"left_right\"\n    B = \"b\""
    );
}

#[test]
fn every_refusal_has_its_reason() {
    let fails = |src: &str| PrometheusParser::parse_file(src).err().unwrap();
    assert!(matches!(fails("pub mod {"), ParseError::InvalidSource));
    assert_eq!(fails("pub mod {").message(), "Failed to parse Rust file");
    assert!(matches!(
        fails("pub mod m { pub const A: &str = 1; }"),
        ParseError::ExpectedStringLiteral
    ));
    assert!(matches!(
        fails("pub mod m { pub const A: &str = env!(NAME); }"),
        ParseError::NoStringLiterals
    ));
    assert!(matches!(
        fails("pub mod m { pub const A: &str = OTHER; }"),
        ParseError::UnsupportedExpression
    ));
}

#[test]
fn later_module_of_the_same_name_counts() {
    let parser = parse(
        "pub mod b {} pub mod a { pub const X: &str = \"1\"; } pub mod a { pub const X: &str = \"2\"; }",
    );
    let names: Vec<&str> = parser.modules.iter().map(|m| m.name.as_str()).collect();
    assert_eq!(names, vec!["a", "b"]);
    assert_eq!(pairs(parser.module("a").unwrap()), vec![("X", "2")]);
    assert!(parser.module("c").is_none());
}

#[test]
fn classes_are_sorted_and_separated() {
    let parser = parse("pub mod b {} pub mod a {}");
    assert_eq!(
        generate_classes(&parser),
        "class a:\n    pass\n\n\nclass b:\n    pass\n"
    );
    assert_eq!(
        generate_python_file("# head\n", &parser),
        "# head\nclass a:\n    pass\n\n\nclass b:\n    pass\n"
    );
    assert_eq!(generate_classes(&parse("")), "");
}

#[test]
fn modules_in_any_order_are_written_by_name() {
    let parser = PrometheusParser {
        modules: vec![
            module("b", vec![], vec![]),
            module("c", vec![], vec![]),
            module("a", vec![], vec![]),
        ],
    };
    assert_eq!(
        generate_classes(&parser),
        "class a:\n    pass\n\n\nclass b:\n    pass\n\n\nclass c:\n    pass\n"
    );
}

#[test]
fn text_is_known_by_the_last_word_of_its_type() {
    let parser = parse(
        "pub mod m { pub const A: &'static core::primitive::str = \"a\"; pub const B: &str::Other = \"b\"; }",
    );
    assert_eq!(pairs(parser.module("m").unwrap()), vec![("A", "a")]);
}

#[test]
fn reordering_the_source_does_not_change_the_output() {
    let one = parse("pub mod m { pub mod x { pub const A: &str = \"a\"; } pub mod y {} }");
    let other = parse("pub mod m { pub mod y {} pub mod x { pub const A: &str = \"a\"; } }");
    assert_eq!(generate_classes(&one), generate_classes(&other));
    let one = parse("pub mod x { pub const A: &str = \"a\"; } const B: u8 = 1; pub mod y {}");
    let other = parse("pub mod y {} pub mod x { pub const A: &str = \"a\"; } const B: u8 = 1;");
    assert_eq!(generate_classes(&one), generate_classes(&other));
}

#[test]
fn summary_lists_nested_modules() {
    let parser = parse(NESTED_SOURCE);
    assert_eq!(
        print_module_summary(parser.module("transport").unwrap()),
        vec![
            "  - transport: 0 constants",
            "    - nats: 1 constants",
            "    - tcp: 2 constants",
        ]
    );
}

#[test]
fn deeper_class_is_the_same_text_shifted() {
    let parser = parse("/// D\npub mod m { pub const A: &str = \"a\"; pub mod n {} }");
    let source = parser.module("m").unwrap().clone();
    let mut flat = Vec::new();
    render_class(&source, 1, &mut flat);
    let mut deep = Vec::new();
    render_class(&source, 2, &mut deep);
    let shifted: Vec<String> = flat
        .iter()
        .map(|line| {
            if line.is_empty() {
                String::new()
            } else {
                format!("    {line}")
            }
        })
        .collect();
    assert_eq!(deep, shifted);
    assert!(deep.iter().any(|line| line.is_empty()));
}
