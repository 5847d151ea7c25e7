use echeo::shredder::{extract_capabilities, Capability, CapabilityKind, Shredder};
use echeo::syntax::{language_for_extension, ExtractError, SourceLanguage, SyntaxNode};

fn shred(ext: &str, source: &str) -> Vec<Capability> {
    Shredder::new().shred_source(ext, source).expect("source should parse")
}

#[test]
fn uppercase_typescript_function_is_component() {
    let caps = shred("ts", "function Button() { return 1; }\n");
    assert_eq!(caps.len(), 1);
    assert_eq!(caps[0].name, "Button");
    assert_eq!(caps[0].kind, CapabilityKind::Component);
    assert_eq!(caps[0].line, 1);
    assert!(caps[0].authorship.is_none());
}

#[test]
fn lowercase_typescript_function_is_function() {
    let caps = shred("js", "\nfunction button() { return 1; }\n");
    assert_eq!(caps.len(), 1);
    assert_eq!(caps[0].name, "button");
    assert_eq!(caps[0].kind, CapabilityKind::Function);
    assert_eq!(caps[0].line, 2);
    assert_eq!(caps[0].code_snippet, "function button() { return 1; }");
}

#[test]
fn arrow_function_bindings_are_recorded() {
    let caps = shred("ts", "const Card = () => 1;\nconst total = (a) => a + 1;\nconst n = 3;\n");
    assert_eq!(caps.len(), 2);
    assert_eq!(caps[0].name, "Card");
    assert_eq!(caps[0].kind, CapabilityKind::Component);
    assert_eq!(caps[1].name, "total");
    assert_eq!(caps[1].kind, CapabilityKind::Function);
    assert_eq!(caps[1].line, 2);
}

#[test]
fn classes_and_route_methods_are_recorded() {
    let caps = shred("ts", "export class Api {\n  get() { return 1; }\n  helper() { return 2; }\n}\n");
    assert_eq!(caps.len(), 2);
    assert_eq!(caps[0].name, "Api");
    assert_eq!(caps[0].kind, CapabilityKind::Class);
    assert_eq!(caps[1].name, "get");
    assert_eq!(caps[1].kind, CapabilityKind::ApiRoute);
    assert_eq!(caps[1].line, 2);
}

#[test]
fn private_rust_function_yields_nothing() {
    let caps = shred("rs", "fn helper() {}\n");
    assert!(caps.is_empty());
}

#[test]
fn public_rust_function_is_recorded() {
    let caps = shred("rs", "fn hidden() {}\npub fn helper() {}\n");
    assert_eq!(caps.len(), 1);
    assert_eq!(caps[0].name, "helper");
    assert_eq!(caps[0].kind, CapabilityKind::Function);
    assert_eq!(caps[0].line, 2);
}

#[test]
fn rust_structs_and_impls_are_classes() {
    let caps = shred("rs", "struct Point { x: i32 }\nimpl Point {\n    pub fn x(&self) -> i32 { self.x }\n}\n");
    assert_eq!(caps.len(), 3);
    assert_eq!((caps[0].name.as_str(), caps[0].kind, caps[0].line), ("Point", CapabilityKind::Class, 1));
    assert_eq!((caps[1].name.as_str(), caps[1].kind, caps[1].line), ("Point", CapabilityKind::Class, 2));
    assert_eq!((caps[2].name.as_str(), caps[2].kind, caps[2].line), ("x", CapabilityKind::Function, 3));
}

#[test]
fn python_definitions_are_recorded() {
    let caps = shred("py", "def run():\n    pass\n\nclass Job:\n    def step(self):\n        pass\n");
    assert_eq!(caps.len(), 3);
    assert_eq!((caps[0].name.as_str(), caps[0].kind, caps[0].line), ("run", CapabilityKind::Function, 1));
    assert_eq!((caps[1].name.as_str(), caps[1].kind, caps[1].line), ("Job", CapabilityKind::Class, 4));
    assert_eq!((caps[2].name.as_str(), caps[2].kind, caps[2].line), ("step", CapabilityKind::Function, 5));
}

#[test]
fn lowercase_go_function_is_not_exported() {
    let caps = shred("go", "package main\n\nfunc helper() {}\n");
    assert!(caps.is_empty());
}

#[test]
fn uppercase_go_function_is_exported() {
    let caps = shred("go", "package main\n\nfunc Helper() {}\n");
    assert_eq!(caps.len(), 1);
    assert_eq!(caps[0].name, "Helper");
    assert_eq!(caps[0].kind, CapabilityKind::Function);
    assert_eq!(caps[0].line, 3);
}

#[test]
fn unknown_extension_gives_nothing() {
    let caps = shred("md", "function Button() {}\n");
    assert!(caps.is_empty());
    assert_eq!(language_for_extension("md"), None);
    assert_eq!(language_for_extension("tsx"), Some(SourceLanguage::TypeScript));
    assert_eq!(language_for_extension("go"), Some(SourceLanguage::Go));
}

#[test]
fn long_snippets_are_cut_with_an_ellipsis() {
    let body = "x".repeat(600);
    let source = format!("function big() {{ return \"{}\"; }}\n", body);
    let caps = shred("ts", &source);
    assert_eq!(caps.len(), 1);
    let snippet: Vec<char> = caps[0].code_snippet.chars().collect();
    assert_eq!(snippet.len(), 503);
    assert!(caps[0].code_snippet.ends_with("..."));
    assert!(caps[0].code_snippet.starts_with("function big() { return \"xxx"));
}

#[test]
fn snippets_count_characters_not_bytes() {
    let body = "é".repeat(300);
    let source = format!("function wide() {{ return \"{}\"; }}\n", body);
    let caps = shred("ts", &source);
    assert_eq!(caps.len(), 1);
    assert!(!caps[0].code_snippet.ends_with("..."));
    assert_eq!(caps[0].code_snippet, source.trim_end());
}

fn leaf(kind: &str, start: usize, end: usize) -> SyntaxNode {
    SyntaxNode { kind: kind.to_string(), start_byte: start, end_byte: end, row: 0, children: vec![] }
}

#[test]
fn hand_built_tree_is_walked() {
    let source = "def go(): pass";
    let def = SyntaxNode {
        kind: "function_definition".to_string(),
        start_byte: 0,
        end_byte: source.len(),
        row: 0,
        children: vec![leaf("def", 0, 3), leaf("identifier", 4, 6)],
    };
    let root = SyntaxNode { kind: "module".to_string(), start_byte: 0, end_byte: source.len(), row: 0, children: vec![def] };
    let caps = extract_capabilities(SourceLanguage::Python, &root, source).unwrap();
    assert_eq!(caps.len(), 1);
    assert_eq!(caps[0].name, "go");
    assert_eq!(caps[0].code_snippet, source);
}

#[test]
fn span_inside_a_character_is_refused() {
    let source = "é";
    let root = leaf("module", 0, 1);
    assert_eq!(extract_capabilities(SourceLanguage::Python, &root, source).unwrap_err(), ExtractError::Decode);
    let past_end = leaf("module", 0, 9);
    assert_eq!(extract_capabilities(SourceLanguage::Python, &past_end, source).unwrap_err(), ExtractError::Decode);
}

#[test]
fn kind_labels() {
    assert_eq!(CapabilityKind::Function.label(), "function");
    assert_eq!(CapabilityKind::Class.label(), "class");
    assert_eq!(CapabilityKind::ApiRoute.label(), "api_route");
    assert_eq!(CapabilityKind::Component.label(), "component");
}

#[test]
fn exported_go_methods_are_recorded() {
    let caps = shred("go", "package main\n\ntype T struct{}\n\nfunc (t T) Run() {}\n\nfunc (t T) stop() {}\n");
    assert_eq!(caps.len(), 2);
    assert_eq!((caps[0].name.as_str(), caps[0].kind, caps[0].line), ("T", CapabilityKind::Class, 3));
    assert_eq!((caps[1].name.as_str(), caps[1].kind, caps[1].line), ("Run", CapabilityKind::Function, 5));
}

#[test]
fn go_type_declarations_yield_one_class_per_exported_type() {
    let caps = shred("go", "package main\n\ntype (\n\tUser struct{}\n\tid int\n\tName = string\n)\n");
    let names: Vec<&str> = caps.iter().map(|c| c.name.as_str()).collect();
    assert_eq!(names, vec!["User", "Name"]);
    assert!(caps.iter().all(|c| c.kind == CapabilityKind::Class && c.line == 3));
    assert!(caps[0].code_snippet.starts_with("type ("));
}
