use vstd::prelude::*;
use vstd::utf8::*;

verus! {

/// tree-sitter's parser, carried opaquely.
#[verifier::external_type_specification]
#[verifier::external_body]
pub struct ExParser(tree_sitter::Parser);

/// tree-sitter's syntax tree, carried opaquely.
#[verifier::external_type_specification]
#[verifier::external_body]
pub struct ExTree(tree_sitter::Tree);

/// A node of a tree-sitter tree, carried opaquely.
#[verifier::external_type_specification]
#[verifier::external_body]
pub struct ExNode<'a>(tree_sitter::Node<'a>);

/// A tree-sitter grammar, carried opaquely.
#[verifier::external_type_specification]
#[verifier::external_body]
pub struct ExGrammar(tree_sitter::Language);

/// The language families the extractor knows a grammar for.
#[derive(Debug, Clone, Copy, PartialEq, Eq, Structural)]
pub enum SourceLanguage {
    /// TypeScript and JavaScript, read with the TypeScript grammar.
    TypeScript,
    Rust,
    Python,
    Go,
}

/// Why a file contributed no capabilities.
#[derive(Debug, Clone, Copy, PartialEq, Eq, Structural)]
pub enum ExtractError {
    /// The grammar could not be loaded into the parser.
    Grammar,
    /// The parser produced no tree.
    Parse,
    /// The tree is nested deeper than the extractor walks.
    TooDeep,
    /// A node's span does not cut the source at character boundaries.
    Decode,
}

/// A node of a syntax tree: its kind, the byte span it covers in the source,
/// the 0-based row it starts on, and its children in source order.
#[derive(Debug)]
pub struct SyntaxNode {
    pub kind: String,
    pub start_byte: usize,
    pub end_byte: usize,
    pub row: usize,
    pub children: Vec<SyntaxNode>,
}

/// How deep a tree the conversion from the parser's tree walks; deeper trees
/// are refused rather than walked without bound.
pub const MAX_TREE_DEPTH: usize = 10000;

/// The language an extension selects, if any.
pub open spec fn language_of_extension(ext: Seq<char>) -> Option<SourceLanguage> {
    if ext == "ts"@ || ext == "tsx"@ || ext == "js"@ || ext == "jsx"@ {
        Some(SourceLanguage::TypeScript)
    } else if ext == "rs"@ {
        Some(SourceLanguage::Rust)
    } else if ext == "py"@ {
        Some(SourceLanguage::Python)
    } else if ext == "go"@ {
        Some(SourceLanguage::Go)
    } else {
        None
    }
}

/// Selects the grammar family for a file extension (without the dot).
pub fn language_for_extension(ext: &str) -> (r: Option<SourceLanguage>)
    ensures
        r == language_of_extension(ext@),
{
    if crate::text::text_eq(ext, "ts") || crate::text::text_eq(ext, "tsx") || crate::text::text_eq(
        ext,
        "js",
    ) || crate::text::text_eq(ext, "jsx") {
        Some(SourceLanguage::TypeScript)
    } else if crate::text::text_eq(ext, "rs") {
        Some(SourceLanguage::Rust)
    } else if crate::text::text_eq(ext, "py") {
        Some(SourceLanguage::Python)
    } else if crate::text::text_eq(ext, "go") {
        Some(SourceLanguage::Go)
    } else {
        None
    }
}

/// The text a span covers: the characters that the bytes `start..end` encode.
pub open spec fn span_text(bytes: Seq<u8>, start: int, end: int) -> Seq<char> {
    decode_utf8(bytes.subrange(start, end))
}

/// A span lies within the source and cuts it at character boundaries: its
/// start cuts the whole text, its end cuts the text that follows the start.
/// The row it starts on is no larger than its start offset (each earlier row
/// ends in a byte of its own), and the source is shorter than `usize::MAX`.
pub open spec fn span_ok(bytes: Seq<u8>, n: SyntaxNode) -> bool {
    &&& n.row <= n.start_byte <= n.end_byte <= bytes.len() < usize::MAX
    &&& is_char_boundary(bytes, n.start_byte as int)
    &&& is_char_boundary(
        bytes.subrange(n.start_byte as int, bytes.len() as int),
        n.end_byte - n.start_byte,
    )
}

/// Every node of the tree has a well-formed span.
pub open spec fn tree_ok(bytes: Seq<u8>, n: SyntaxNode) -> bool
    decreases n,
{
    span_ok(bytes, n) && forest_ok(bytes, n.children@)
}

/// Every tree of the sequence is well formed.
pub open spec fn forest_ok(bytes: Seq<u8>, s: Seq<SyntaxNode>) -> bool
    decreases s,
{
    if s.len() == 0 {
        true
    } else {
        forest_ok(bytes, s.drop_last()) && tree_ok(bytes, s.last())
    }
}

/// The number of levels of a tree: one for a leaf.
pub open spec fn tree_depth(n: SyntaxNode) -> nat
    decreases n,
{
    1 + forest_depth(n.children@)
}

/// The largest depth among a sequence of trees (zero when there are none).
pub open spec fn forest_depth(s: Seq<SyntaxNode>) -> nat
    decreases s,
{
    if s.len() == 0 {
        0
    } else {
        let a = forest_depth(s.drop_last());
        let b = tree_depth(s.last());
        if a >= b {
            a
        } else {
            b
        }
    }
}

/// Relies on `tree_sitter::Parser::new`.
#[verifier::external_body]
fn new_parser() -> tree_sitter::Parser {
    tree_sitter::Parser::new()
}

/// Relies on `tree_sitter_typescript::language_typescript`.
#[verifier::external_body]
fn typescript_grammar() -> tree_sitter::Language {
    tree_sitter_typescript::language_typescript()
}

/// Relies on `tree_sitter_rust::language`.
#[verifier::external_body]
fn rust_grammar() -> tree_sitter::Language {
    tree_sitter_rust::language()
}

/// Relies on `tree_sitter_python::language`.
#[verifier::external_body]
fn python_grammar() -> tree_sitter::Language {
    tree_sitter_python::language()
}

/// Relies on `tree_sitter_go::language`.
#[verifier::external_body]
fn go_grammar() -> tree_sitter::Language {
    tree_sitter_go::language()
}

/// The grammar of a language family (TypeScript's for the TypeScript family,
/// JavaScript included).
fn grammar(lang: SourceLanguage) -> tree_sitter::Language {
    match lang {
        SourceLanguage::TypeScript => typescript_grammar(),
        SourceLanguage::Rust => rust_grammar(),
        SourceLanguage::Python => python_grammar(),
        SourceLanguage::Go => go_grammar(),
    }
}

/// Relies on `tree_sitter::Parser::set_language`: true when the grammar was accepted.
#[verifier::external_body]
fn set_grammar(parser: &mut tree_sitter::Parser, g: tree_sitter::Language) -> bool {
    parser.set_language(g).is_ok()
}

/// Relies on `tree_sitter::Parser::parse`, from scratch (no earlier tree).
#[verifier::external_body]
fn parse_text(parser: &mut tree_sitter::Parser, source: &str) -> Option<tree_sitter::Tree> {
    parser.parse(source, None)
}

/// Relies on `tree_sitter::Tree::root_node`.
#[verifier::external_body]
fn root_of<'a>(tree: &'a tree_sitter::Tree) -> tree_sitter::Node<'a> {
    tree.root_node()
}

/// Relies on `tree_sitter::Node::kind`.
#[verifier::external_body]
fn node_kind(node: &tree_sitter::Node) -> String {
    node.kind().to_string()
}

/// Relies on `tree_sitter::Node::start_byte`.
#[verifier::external_body]
fn node_start(node: &tree_sitter::Node) -> usize {
    node.start_byte()
}

/// Relies on `tree_sitter::Node::end_byte`.
#[verifier::external_body]
fn node_end(node: &tree_sitter::Node) -> usize {
    node.end_byte()
}

/// Relies on `tree_sitter::Node::start_position`, its row.
#[verifier::external_body]
fn node_row(node: &tree_sitter::Node) -> usize {
    node.start_position().row
}

/// Relies on `tree_sitter::Node::child_count`.
#[verifier::external_body]
fn node_child_count(node: &tree_sitter::Node) -> usize {
    node.child_count()
}

/// Relies on `tree_sitter::Node::child`.
#[verifier::external_body]
fn node_child<'a>(node: &tree_sitter::Node<'a>, i: usize) -> Option<tree_sitter::Node<'a>> {
    node.child(i)
}

/// Copies a parser node and its descendants, down to `depth` levels.
fn convert_node(node: &tree_sitter::Node, depth: usize) -> (r: Result<SyntaxNode, ExtractError>)
    ensures
        match r {
            Ok(t) => tree_depth(t) <= depth,
            Err(e) => e == ExtractError::TooDeep,
        },
    decreases depth,
{
    if depth == 0 {
        return Err(ExtractError::TooDeep);
    }
    let count = node_child_count(node);
    let mut children: Vec<SyntaxNode> = Vec::new();
    let mut i: usize = 0;
    while i < count
        invariant
            i <= count,
            depth > 0,
            forest_depth(children@) <= depth - 1,
        decreases count - i,
    {
        match node_child(node, i) {
            Some(c) => {
                let sub = convert_node(&c, depth - 1)?;
                let ghost before = children@;
                children.push(sub);
                assert(children@.drop_last() =~= before);
            },
            None => {},
        }
        i = i + 1;
    }
    Ok(
        SyntaxNode {
            kind: node_kind(node),
            start_byte: node_start(node),
            end_byte: node_end(node),
            row: node_row(node),
            children,
        },
    )
}

/// Parses `source` with the grammar of `lang` and copies the tree, which is
/// at most `MAX_TREE_DEPTH` levels deep. Whether the parser accepts the
/// grammar and yields a tree is its own decision (`Grammar`, `Parse`); a
/// deeper tree is refused with `TooDeep`.
pub fn parse_source(lang: SourceLanguage, source: &str) -> (r: Result<SyntaxNode, ExtractError>)
    ensures
        match r {
            Ok(t) => tree_depth(t) <= MAX_TREE_DEPTH,
            Err(e) => e == ExtractError::Grammar || e == ExtractError::Parse || e
                == ExtractError::TooDeep,
        },
{
    let mut parser = new_parser();
    if !set_grammar(&mut parser, grammar(lang)) {
        return Err(ExtractError::Grammar);
    }
    match parse_text(&mut parser, source) {
        Some(tree) => {
            let root = root_of(&tree);
            convert_node(&root, MAX_TREE_DEPTH)
        },
        None => Err(ExtractError::Parse),
    }
}

} // verus!
