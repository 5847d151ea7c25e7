use vstd::prelude::*;
use vstd::string::*;
use vstd::utf8::*;

use crate::authorship::AuthorshipInfo;
use crate::syntax::{
    forest_ok, language_for_extension, language_of_extension, parse_source, span_ok, span_text,
    tree_depth, tree_ok, ExtractError, SourceLanguage, SyntaxNode, MAX_TREE_DEPTH,
};
use crate::text::{char_is_uppercase, starts_upper, text_eq};

verus! {

/// The category a capability falls into.
#[derive(Debug, Clone, Copy, PartialEq, Eq, Structural)]
pub enum CapabilityKind {
    Function,
    Class,
    ApiRoute,
    /// A UI component: a function whose name starts with an uppercase letter.
    Component,
}

/// The lowercase label of a kind, as embedding and matching use it.
pub open spec fn kind_label(k: CapabilityKind) -> Seq<char> {
    match k {
        CapabilityKind::Function => "function"@,
        CapabilityKind::Class => "class"@,
        CapabilityKind::ApiRoute => "api_route"@,
        CapabilityKind::Component => "component"@,
    }
}

impl CapabilityKind {
    /// The kind's lowercase label.
    pub fn label(&self) -> (r: String)
        ensures
            r@ == kind_label(*self),
    {
        match self {
            CapabilityKind::Function => String::from_str("function"),
            CapabilityKind::Class => String::from_str("class"),
            CapabilityKind::ApiRoute => String::from_str("api_route"),
            CapabilityKind::Component => String::from_str("component"),
        }
    }
}

/// A named, addressable unit of source code found in a syntax tree.
#[derive(Debug, Clone)]
pub struct Capability {
    pub name: String,
    pub kind: CapabilityKind,
    /// 1-based line of the defining node.
    pub line: usize,
    /// The node's text, cut to `SNIPPET_CHARS` characters and an ellipsis.
    pub code_snippet: String,
    pub authorship: Option<AuthorshipInfo>,
}

/// What a capability says, without its authorship.
pub struct CapabilityView {
    pub name: Seq<char>,
    pub kind: CapabilityKind,
    pub line: int,
    pub snippet: Seq<char>,
}

impl View for Capability {
    type V = CapabilityView;

    open spec fn view(&self) -> CapabilityView {
        CapabilityView {
            name: self.name@,
            kind: self.kind,
            line: self.line as int,
            snippet: self.code_snippet@,
        }
    }
}

/// How many characters of a node's text a snippet keeps.
pub const SNIPPET_CHARS: usize = 500;

/// The views of a sequence of capabilities.
pub open spec fn views(s: Seq<Capability>) -> Seq<CapabilityView> {
    s.map_values(|c: Capability| c@)
}

/// The text itself when it has at most `SNIPPET_CHARS` characters, else its
/// first `SNIPPET_CHARS` characters followed by `...`.
pub open spec fn snippet_of(t: Seq<char>) -> Seq<char> {
    if t.len() > SNIPPET_CHARS {
        t.take(SNIPPET_CHARS as int) + seq!['.', '.', '.']
    } else {
        t
    }
}

/// The source text a node covers.
pub open spec fn node_text(bytes: Seq<u8>, n: SyntaxNode) -> Seq<char> {
    span_text(bytes, n.start_byte as int, n.end_byte as int)
}

/// The record emitted for node `n` under `name` and `kind`.
pub open spec fn record(bytes: Seq<u8>, n: SyntaxNode, name: Seq<char>, kind: CapabilityKind) -> CapabilityView {
    CapabilityView { name, kind, line: n.row + 1, snippet: snippet_of(node_text(bytes, n)) }
}

/// Whether a node is of kind `k1` or `k2`.
pub open spec fn kind_is(n: SyntaxNode, k1: Seq<char>, k2: Seq<char>) -> bool {
    n.kind@ == k1 || n.kind@ == k2
}

/// The first index from `i` on whose node is of kind `k1` or `k2`.
pub open spec fn first_from(s: Seq<SyntaxNode>, k1: Seq<char>, k2: Seq<char>, i: int) -> Option<int>
    decreases s.len() - i,
{
    if i < 0 || i >= s.len() {
        None
    } else if kind_is(s[i], k1, k2) {
        Some(i)
    } else {
        first_from(s, k1, k2, i + 1)
    }
}

/// The first child of kind `k1` or `k2`.
pub open spec fn first_of(s: Seq<SyntaxNode>, k1: Seq<char>, k2: Seq<char>) -> Option<int> {
    first_from(s, k1, k2, 0)
}

/// The last index below `n` whose node is of kind `k`.
pub open spec fn last_before(s: Seq<SyntaxNode>, k: Seq<char>, n: int) -> Option<int>
    decreases n,
{
    if n <= 0 {
        None
    } else if s[n - 1].kind@ == k {
        Some(n - 1)
    } else {
        last_before(s, k, n - 1)
    }
}

/// Function, or Component when the name starts with an uppercase letter.
pub open spec fn callable_kind(name: Seq<char>) -> CapabilityKind {
    if starts_upper(name) {
        CapabilityKind::Component
    } else {
        CapabilityKind::Function
    }
}

/// The HTTP verbs whose methods count as API routes.
pub open spec fn is_route_name(name: Seq<char>) -> bool {
    name == "get"@ || name == "post"@ || name == "put"@ || name == "delete"@
}

/// The capability a TypeScript/JavaScript node defines, if any.
pub open spec fn typescript_record(bytes: Seq<u8>, n: SyntaxNode) -> Option<CapabilityView> {
    let c = n.children@;
    if n.kind@ == "function_declaration"@ {
        match first_of(c, "identifier"@, "identifier"@) {
            Some(i) => {
                let name = node_text(bytes, c[i]);
                if name.len() > 0 {
                    Some(record(bytes, n, name, callable_kind(name)))
                } else {
                    None
                }
            },
            None => None,
        }
    } else if n.kind@ == "class_declaration"@ {
        match first_of(c, "type_identifier"@, "identifier"@) {
            Some(i) => {
                let name = node_text(bytes, c[i]);
                if name.len() > 0 {
                    Some(record(bytes, n, name, CapabilityKind::Class))
                } else {
                    None
                }
            },
            None => None,
        }
    } else if n.kind@ == "variable_declarator"@ {
        match last_before(c, "identifier"@, c.len() as int) {
            Some(i) => {
                if first_of(c, "arrow_function"@, "function"@) is Some {
                    let name = node_text(bytes, c[i]);
                    Some(record(bytes, n, name, callable_kind(name)))
                } else {
                    None
                }
            },
            None => None,
        }
    } else if n.kind@ == "method_definition"@ {
        match first_of(c, "property_identifier"@, "identifier"@) {
            Some(i) => {
                let name = node_text(bytes, c[i]);
                if is_route_name(name) {
                    Some(record(bytes, n, name, CapabilityKind::ApiRoute))
                } else {
                    None
                }
            },
            None => None,
        }
    } else {
        None
    }
}

/// The capability a Rust node defines, if any. `visible` is the inherited
/// visibility flag; `parent_marked` says whether the parent has a visibility
/// marker among its children.
pub open spec fn rust_record(bytes: Seq<u8>, n: SyntaxNode, visible: bool, parent_marked: bool) -> Option<CapabilityView> {
    let c = n.children@;
    if n.kind@ == "function_item"@ {
        match first_of(c, "identifier"@, "identifier"@) {
            Some(i) => {
                if visible || parent_marked || first_of(c, "visibility_modifier"@, "visibility_modifier"@) is Some {
                    Some(record(bytes, n, node_text(bytes, c[i]), CapabilityKind::Function))
                } else {
                    None
                }
            },
            None => None,
        }
    } else if n.kind@ == "struct_item"@ || n.kind@ == "impl_item"@ {
        match first_of(c, "type_identifier"@, "type_identifier"@) {
            Some(i) => Some(record(bytes, n, node_text(bytes, c[i]), CapabilityKind::Class)),
            None => None,
        }
    } else {
        None
    }
}

/// The capability a Python node defines, if any.
pub open spec fn python_record(bytes: Seq<u8>, n: SyntaxNode) -> Option<CapabilityView> {
    let c = n.children@;
    if n.kind@ == "function_definition"@ || n.kind@ == "class_definition"@ {
        match first_of(c, "identifier"@, "identifier"@) {
            Some(i) => Some(
                record(
                    bytes,
                    n,
                    node_text(bytes, c[i]),
                    if n.kind@ == "function_definition"@ {
                        CapabilityKind::Function
                    } else {
                        CapabilityKind::Class
                    },
                ),
            ),
            None => None,
        }
    } else {
        None
    }
}

/// The class a child of a Go type declaration `n` declares, if it is a type
/// specification or alias whose name is exported (uppercase). The record is
/// placed at the declaration.
pub open spec fn go_type_record(bytes: Seq<u8>, n: SyntaxNode, t: SyntaxNode) -> Seq<CapabilityView> {
    if kind_is(t, "type_spec"@, "type_alias"@) {
        match first_of(t.children@, "type_identifier"@, "type_identifier"@) {
            Some(j) => {
                let name = node_text(bytes, t.children@[j]);
                if starts_upper(name) {
                    seq![record(bytes, n, name, CapabilityKind::Class)]
                } else {
                    seq![]
                }
            },
            None => seq![],
        }
    } else {
        seq![]
    }
}

/// The classes the first `k` children of a Go type declaration `n` declare.
pub open spec fn go_type_records(bytes: Seq<u8>, n: SyntaxNode, k: int) -> Seq<CapabilityView>
    decreases k,
{
    if k <= 0 {
        seq![]
    } else {
        go_type_records(bytes, n, k - 1) + go_type_record(bytes, n, n.children@[k - 1])
    }
}

/// The capabilities a Go node defines; only exported (uppercase) names count.
/// A function is named by its first `identifier` child, a method by its first
/// `field_identifier` child; a type declaration yields one class per type it
/// declares.
pub open spec fn go_records(bytes: Seq<u8>, n: SyntaxNode) -> Seq<CapabilityView> {
    let c = n.children@;
    if n.kind@ == "function_declaration"@ || n.kind@ == "method_declaration"@ {
        let found = if n.kind@ == "method_declaration"@ {
            first_of(c, "field_identifier"@, "field_identifier"@)
        } else {
            first_of(c, "identifier"@, "identifier"@)
        };
        match found {
            Some(i) => {
                let name = node_text(bytes, c[i]);
                if starts_upper(name) {
                    seq![record(bytes, n, name, CapabilityKind::Function)]
                } else {
                    seq![]
                }
            },
            None => seq![],
        }
    } else if n.kind@ == "type_declaration"@ {
        go_type_records(bytes, n, c.len() as int)
    } else {
        seq![]
    }
}

/// The one-element sequence of a present record, or the empty one.
pub open spec fn opt_seq(o: Option<CapabilityView>) -> Seq<CapabilityView> {
    match o {
        Some(c) => seq![c],
        None => seq![],
    }
}

/// Whether a node is its language's export/public marker.
pub open spec fn is_marker(lang: SourceLanguage, n: SyntaxNode) -> bool {
    match lang {
        SourceLanguage::TypeScript => n.kind@ == "export_statement"@ || n.kind@ == "export"@,
        SourceLanguage::Rust => n.kind@ == "visibility_modifier"@,
        _ => false,
    }
}

/// The capabilities node `n` defines under the rules of `lang`.
pub open spec fn node_records(
    lang: SourceLanguage,
    bytes: Seq<u8>,
    n: SyntaxNode,
    visible: bool,
    parent_marked: bool,
) -> Seq<CapabilityView> {
    match lang {
        SourceLanguage::TypeScript => opt_seq(typescript_record(bytes, n)),
        SourceLanguage::Rust => opt_seq(rust_record(bytes, n, visible, parent_marked)),
        SourceLanguage::Python => opt_seq(python_record(bytes, n)),
        SourceLanguage::Go => go_records(bytes, n),
    }
}

/// Whether a node has a child that is a Rust visibility marker.
pub open spec fn has_marked_child(n: SyntaxNode) -> bool {
    first_of(n.children@, "visibility_modifier"@, "visibility_modifier"@) is Some
}

/// The capabilities of a tree, in pre-order: the node's own records, then
/// those of its children in order. The visibility flag, once set by a marker
/// node, holds for all of that node's descendants.
pub open spec fn walk(
    lang: SourceLanguage,
    bytes: Seq<u8>,
    n: SyntaxNode,
    visible: bool,
    parent_marked: bool,
) -> Seq<CapabilityView>
    decreases n,
{
    let v = visible || is_marker(lang, n);
    node_records(lang, bytes, n, v, parent_marked) + walk_all(lang, bytes, n.children@, v, has_marked_child(n))
}

/// The capabilities of a sequence of sibling trees, in order.
pub open spec fn walk_all(
    lang: SourceLanguage,
    bytes: Seq<u8>,
    s: Seq<SyntaxNode>,
    visible: bool,
    parent_marked: bool,
) -> Seq<CapabilityView>
    decreases s,
{
    if s.len() == 0 {
        seq![]
    } else {
        walk_all(lang, bytes, s.drop_last(), visible, parent_marked) + walk(
            lang,
            bytes,
            s.last(),
            visible,
            parent_marked,
        )
    }
}

/// The capabilities of a whole file's tree.
pub open spec fn extraction(lang: SourceLanguage, bytes: Seq<u8>, root: SyntaxNode) -> Seq<CapabilityView> {
    walk(lang, bytes, root, false, false)
}

/// No capability of the sequence carries authorship.
pub open spec fn unattributed(s: Seq<Capability>) -> bool {
    forall|j: int| 0 <= j < s.len() ==> (#[trigger] s[j]).authorship is None
}

proof fn lemma_forest_members(bytes: Seq<u8>, s: Seq<SyntaxNode>)
    requires
        forest_ok(bytes, s),
    ensures
        forall|i: int| 0 <= i < s.len() ==> tree_ok(bytes, #[trigger] s[i]),
    decreases s.len(),
{
    if s.len() > 0 {
        lemma_forest_members(bytes, s.drop_last());
        assert forall|i: int| 0 <= i < s.len() implies tree_ok(bytes, #[trigger] s[i]) by {
            if i < s.len() - 1 {
                assert(s.drop_last()[i] == s[i]);
            }
        }
    }
}

/// The index of the first node of kind `k1` or `k2`.
fn first_index(c: &Vec<SyntaxNode>, k1: &str, k2: &str) -> (r: Option<usize>)
    ensures
        r matches Some(i) ==> i < c.len(),
        match first_of(c@, k1@, k2@) {
            Some(i) => r == Some(i as usize) && 0 <= i < c@.len(),
            None => r is None,
        },
{
    let mut i: usize = 0;
    while i < c.len()
        invariant
            i <= c.len(),
            first_of(c@, k1@, k2@) == first_from(c@, k1@, k2@, i as int),
        decreases c.len() - i,
    {
        if text_eq(c[i].kind.as_str(), k1) || text_eq(c[i].kind.as_str(), k2) {
            return Some(i);
        }
        i = i + 1;
    }
    None
}

/// The index of the last node of kind `k`.
fn last_index(c: &Vec<SyntaxNode>, k: &str) -> (r: Option<usize>)
    ensures
        match last_before(c@, k@, c@.len() as int) {
            Some(i) => r == Some(i as usize) && 0 <= i < c@.len(),
            None => r is None,
        },
{
    let mut found: Option<usize> = None;
    let mut i: usize = 0;
    while i < c.len()
        invariant
            i <= c.len(),
            match last_before(c@, k@, i as int) {
                Some(j) => found == Some(j as usize) && 0 <= j < i,
                None => found is None,
            },
        decreases c.len() - i,
    {
        if text_eq(c[i].kind.as_str(), k) {
            found = Some(i);
        }
        i = i + 1;
    }
    found
}

/// The source text that a node covers.
fn span_string(source: &str, n: &SyntaxNode) -> (r: String)
    requires
        span_ok(source.spec_bytes(), *n),
    ensures
        r@ == node_text(source.spec_bytes(), *n),
{
    let (_, rest) = source.split_at(n.start_byte);
    let (mid, _) = rest.split_at(n.end_byte - n.start_byte);
    proof {
        let bytes = source.spec_bytes();
        assert(mid.spec_bytes() =~= bytes.subrange(n.start_byte as int, n.end_byte as int));
        encode_utf8_decode_utf8(mid@);
    }
    mid.to_owned()
}

/// The snippet kept of a node's text.
fn snippet(text: &str) -> (r: String)
    ensures
        r@ == snippet_of(text@),
{
    let len = text.unicode_len();
    if len > SNIPPET_CHARS {
        let head = text.substring_char(0, SNIPPET_CHARS);
        let kept = head.to_owned();
        proof {
            reveal_strlit("...");
        }
        kept.concat("...")
    } else {
        text.to_owned()
    }
}

/// Whether a name starts with an uppercase letter.
fn name_starts_upper(name: &String) -> (r: bool)
    ensures
        r == starts_upper(name@),
{
    let s = name.as_str();
    if s.unicode_len() == 0 {
        false
    } else {
        char_is_uppercase(s.get_char(0))
    }
}

/// Whether a name is one of the HTTP verbs that mark an API route.
fn route_name(name: &String) -> (r: bool)
    ensures
        r == is_route_name(name@),
{
    let s = name.as_str();
    text_eq(s, "get") || text_eq(s, "post") || text_eq(s, "put") || text_eq(s, "delete")
}

/// The capability record for node `n`.
fn make_record(source: &str, n: &SyntaxNode, name: String, kind: CapabilityKind) -> (r: Capability)
    requires
        span_ok(source.spec_bytes(), *n),
    ensures
        r@ == record(source.spec_bytes(), *n, name@, kind),
        r.authorship is None,
{
    let text = span_string(source, n);
    Capability {
        name,
        kind,
        line: n.row + 1,
        code_snippet: snippet(text.as_str()),
        authorship: None,
    }
}

/// The kind of a callable named `name`.
fn callable_kind_of(name: &String) -> (r: CapabilityKind)
    ensures
        r == callable_kind(name@),
{
    if name_starts_upper(name) {
        CapabilityKind::Component
    } else {
        CapabilityKind::Function
    }
}

fn typescript_capability(source: &str, n: &SyntaxNode) -> (r: Option<Capability>)
    requires
        tree_ok(source.spec_bytes(), *n),
    ensures
        r matches Some(c) ==> c.authorship is None,
        match typescript_record(source.spec_bytes(), *n) {
            Some(v) => r matches Some(c) && c@ == v,
            None => r is None,
        },
{
    let ghost bytes = source.spec_bytes();
    proof {
        lemma_forest_members(bytes, n.children@);
    }
    let kind = n.kind.as_str();
    let c = &n.children;
    if text_eq(kind, "function_declaration") {
        match first_index(c, "identifier", "identifier") {
            Some(i) => {
                let name = span_string(source, &c[i]);
                if name.as_str().unicode_len() > 0 {
                    let k = callable_kind_of(&name);
                    Some(make_record(source, n, name, k))
                } else {
                    None
                }
            },
            None => None,
        }
    } else if text_eq(kind, "class_declaration") {
        match first_index(c, "type_identifier", "identifier") {
            Some(i) => {
                let name = span_string(source, &c[i]);
                if name.as_str().unicode_len() > 0 {
                    Some(make_record(source, n, name, CapabilityKind::Class))
                } else {
                    None
                }
            },
            None => None,
        }
    } else if text_eq(kind, "variable_declarator") {
        match last_index(c, "identifier") {
            Some(i) => {
                if first_index(c, "arrow_function", "function").is_some() {
                    let name = span_string(source, &c[i]);
                    let k = callable_kind_of(&name);
                    Some(make_record(source, n, name, k))
                } else {
                    None
                }
            },
            None => None,
        }
    } else if text_eq(kind, "method_definition") {
        match first_index(c, "property_identifier", "identifier") {
            Some(i) => {
                let name = span_string(source, &c[i]);
                if route_name(&name) {
                    Some(make_record(source, n, name, CapabilityKind::ApiRoute))
                } else {
                    None
                }
            },
            None => None,
        }
    } else {
        None
    }
}

fn rust_capability(source: &str, n: &SyntaxNode, visible: bool, parent_marked: bool) -> (r: Option<Capability>)
    requires
        tree_ok(source.spec_bytes(), *n),
    ensures
        r matches Some(c) ==> c.authorship is None,
        match rust_record(source.spec_bytes(), *n, visible, parent_marked) {
            Some(v) => r matches Some(c) && c@ == v,
            None => r is None,
        },
{
    let ghost bytes = source.spec_bytes();
    proof {
        lemma_forest_members(bytes, n.children@);
    }
    let kind = n.kind.as_str();
    let c = &n.children;
    if text_eq(kind, "function_item") {
        match first_index(c, "identifier", "identifier") {
            Some(i) => {
                if visible || parent_marked || first_index(
                    c,
                    "visibility_modifier",
                    "visibility_modifier",
                ).is_some() {
                    let name = span_string(source, &c[i]);
                    Some(make_record(source, n, name, CapabilityKind::Function))
                } else {
                    None
                }
            },
            None => None,
        }
    } else if text_eq(kind, "struct_item") || text_eq(kind, "impl_item") {
        match first_index(c, "type_identifier", "type_identifier") {
            Some(i) => {
                let name = span_string(source, &c[i]);
                Some(make_record(source, n, name, CapabilityKind::Class))
            },
            None => None,
        }
    } else {
        None
    }
}

fn python_capability(source: &str, n: &SyntaxNode) -> (r: Option<Capability>)
    requires
        tree_ok(source.spec_bytes(), *n),
    ensures
        r matches Some(c) ==> c.authorship is None,
        match python_record(source.spec_bytes(), *n) {
            Some(v) => r matches Some(c) && c@ == v,
            None => r is None,
        },
{
    let ghost bytes = source.spec_bytes();
    proof {
        lemma_forest_members(bytes, n.children@);
    }
    let kind = n.kind.as_str();
    let c = &n.children;
    let is_function = text_eq(kind, "function_definition");
    if is_function || text_eq(kind, "class_definition") {
        match first_index(c, "identifier", "identifier") {
            Some(i) => {
                let name = span_string(source, &c[i]);
                let k = if is_function {
                    CapabilityKind::Function
                } else {
                    CapabilityKind::Class
                };
                Some(make_record(source, n, name, k))
            },
            None => None,
        }
    } else {
        None
    }
}

/// The class that child `t` of the Go type declaration `n` declares.
fn go_type_capability(source: &str, n: &SyntaxNode, t: &SyntaxNode) -> (r: Option<Capability>)
    requires
        tree_ok(source.spec_bytes(), *n),
        tree_ok(source.spec_bytes(), *t),
    ensures
        r matches Some(c) ==> c.authorship is None,
        go_type_record(source.spec_bytes(), *n, *t) == match r {
            Some(c) => seq![c@],
            None => Seq::<CapabilityView>::empty(),
        },
{
    let ghost bytes = source.spec_bytes();
    proof {
        lemma_forest_members(bytes, t.children@);
    }
    if text_eq(t.kind.as_str(), "type_spec") || text_eq(t.kind.as_str(), "type_alias") {
        match first_index(&t.children, "type_identifier", "type_identifier") {
            Some(j) => {
                let name = span_string(source, &t.children[j]);
                if name_starts_upper(&name) {
                    Some(make_record(source, n, name, CapabilityKind::Class))
                } else {
                    None
                }
            },
            None => None,
        }
    } else {
        None
    }
}

/// Appends the capabilities the Go node `n` defines to `out`.
fn go_capabilities(source: &str, n: &SyntaxNode, out: &mut Vec<Capability>)
    requires
        tree_ok(source.spec_bytes(), *n),
    ensures
        views(final(out)@) == views(old(out)@) + go_records(source.spec_bytes(), *n),
        unattributed(old(out)@) ==> unattributed(final(out)@),
{
    let ghost bytes = source.spec_bytes();
    let ghost start = out@;
    proof {
        lemma_forest_members(bytes, n.children@);
    }
    let kind = n.kind.as_str();
    let c = &n.children;
    let is_method = text_eq(kind, "method_declaration");
    if text_eq(kind, "function_declaration") || is_method {
        let found = if is_method {
            first_index(c, "field_identifier", "field_identifier")
        } else {
            first_index(c, "identifier", "identifier")
        };
        match found {
            Some(i) => {
                let name = span_string(source, &c[i]);
                if name_starts_upper(&name) {
                    let cap = make_record(source, n, name, CapabilityKind::Function);
                    out.push(cap);
                }
            },
            None => {},
        }
        assert(views(out@) =~= views(start) + go_records(bytes, *n));
    } else if text_eq(kind, "type_declaration") {
        let mut k: usize = 0;
        assert(views(out@) =~= views(start) + go_type_records(bytes, *n, 0));
        while k < c.len()
            invariant
                k <= c.len(),
                c == &n.children,
                bytes == source.spec_bytes(),
                tree_ok(bytes, *n),
                forall|j: int| 0 <= j < c@.len() ==> tree_ok(bytes, #[trigger] c@[j]),
                views(out@) == views(start) + go_type_records(bytes, *n, k as int),
                unattributed(start) ==> unattributed(out@),
            decreases c.len() - k,
        {
            let ghost before = out@;
            match go_type_capability(source, n, &c[k]) {
                Some(cap) => {
                    out.push(cap);
                    assert(views(out@) =~= views(before) + seq![cap@]);
                },
                None => {
                    assert(views(out@) =~= views(before) + Seq::<CapabilityView>::empty());
                },
            }
            assert(views(out@) =~= views(start) + go_type_records(bytes, *n, k + 1));
            k = k + 1;
        }
    } else {
        assert(views(out@) =~= views(start) + go_records(bytes, *n));
    }
}

fn marker(lang: SourceLanguage, n: &SyntaxNode) -> (r: bool)
    ensures
        r == is_marker(lang, *n),
{
    match lang {
        SourceLanguage::TypeScript => text_eq(n.kind.as_str(), "export_statement") || text_eq(
            n.kind.as_str(),
            "export",
        ),
        SourceLanguage::Rust => text_eq(n.kind.as_str(), "visibility_modifier"),
        _ => false,
    }
}

/// Appends the capabilities node `n` defines under the rules of `lang`.
fn node_capabilities(
    lang: SourceLanguage,
    source: &str,
    n: &SyntaxNode,
    visible: bool,
    parent_marked: bool,
    out: &mut Vec<Capability>,
)
    requires
        tree_ok(source.spec_bytes(), *n),
    ensures
        views(final(out)@) == views(old(out)@) + node_records(
            lang,
            source.spec_bytes(),
            *n,
            visible,
            parent_marked,
        ),
        unattributed(old(out)@) ==> unattributed(final(out)@),
{
    let ghost start = out@;
    let found = match lang {
        SourceLanguage::TypeScript => typescript_capability(source, n),
        SourceLanguage::Rust => rust_capability(source, n, visible, parent_marked),
        SourceLanguage::Python => python_capability(source, n),
        SourceLanguage::Go => {
            go_capabilities(source, n, out);
            return ;
        },
    };
    match found {
        Some(c) => {
            out.push(c);
            assert(views(out@) =~= views(start) + seq![c@]);
        },
        None => {
            assert(views(out@) =~= views(start) + Seq::<CapabilityView>::empty());
        },
    }
}

/// Appends the capabilities of the tree `n` to `out`, in pre-order.
#[verifier::rlimit(40)]
fn walk_node(
    lang: SourceLanguage,
    source: &str,
    n: &SyntaxNode,
    visible: bool,
    parent_marked: bool,
    out: &mut Vec<Capability>,
)
    requires
        tree_ok(source.spec_bytes(), *n),
    ensures
        views(final(out)@) == views(old(out)@) + walk(
            lang,
            source.spec_bytes(),
            *n,
            visible,
            parent_marked,
        ),
        unattributed(old(out)@) ==> unattributed(final(out)@),
    decreases n,
{
    let ghost bytes = source.spec_bytes();
    let ghost start = out@;
    let v = visible || marker(lang, n);
    node_capabilities(lang, source, n, v, parent_marked, out);
    let ghost after_own = out@;
    let marked = first_index(&n.children, "visibility_modifier", "visibility_modifier").is_some();
    proof {
        lemma_forest_members(bytes, n.children@);
    }
    let mut i: usize = 0;
    while i < n.children.len()
        invariant
            i <= n.children.len(),
            bytes == source.spec_bytes(),
            forall|j: int| 0 <= j < n.children@.len() ==> tree_ok(bytes, #[trigger] n.children@[j]),
            marked == has_marked_child(*n),
            v == (visible || is_marker(lang, *n)),
            views(after_own) == views(start) + node_records(lang, bytes, *n, v, parent_marked),
            views(out@) == views(after_own) + walk_all(lang, bytes, n.children@.take(i as int), v, marked),
            unattributed(start) ==> unattributed(out@),
        decreases n.children.len() - i,
    {
        let ghost before = out@;
        assert(decreases_to!(*n => n.children@[i as int]));
        walk_node(lang, source, &n.children[i], v, marked, out);
        assert(n.children@.take(i + 1).drop_last() =~= n.children@.take(i as int));
        assert(views(out@) =~= views(after_own) + walk_all(
            lang,
            bytes,
            n.children@.take(i + 1),
            v,
            marked,
        ));
        i = i + 1;
    }
    assert(n.children@.take(n.children@.len() as int) =~= n.children@);
    assert(views(out@) =~= views(start) + walk(lang, bytes, *n, visible, parent_marked));
}

/// Whether every node of the tree has a well-formed span in `source`.
fn spans_valid(source: &str, n: &SyntaxNode) -> (r: bool)
    ensures
        r == tree_ok(source.spec_bytes(), *n),
    decreases n,
{
    let ghost bytes = source.spec_bytes();
    let len = source.as_bytes().len();
    let own = if n.row <= n.start_byte && n.start_byte <= n.end_byte && n.end_byte <= len && len
        < usize::MAX && source.is_char_boundary(n.start_byte) {
        let (_, rest) = source.split_at(n.start_byte);
        assert(rest.spec_bytes() =~= bytes.subrange(n.start_byte as int, bytes.len() as int));
        rest.is_char_boundary(n.end_byte - n.start_byte)
    } else {
        false
    };
    assert(own == span_ok(bytes, *n));
    if !own {
        return false;
    }
    let mut i: usize = 0;
    while i < n.children.len()
        invariant
            i <= n.children.len(),
            bytes == source.spec_bytes(),
            forest_ok(bytes, n.children@.take(i as int)),
        decreases n.children.len() - i,
    {
        assert(decreases_to!(*n => n.children@[i as int]));
        let ok = spans_valid(source, &n.children[i]);
        assert(n.children@.take(i + 1).drop_last() =~= n.children@.take(i as int));
        if !ok {
            proof {
                if forest_ok(bytes, n.children@) {
                    lemma_forest_members(bytes, n.children@);
                }
            }
            return false;
        }
        i = i + 1;
    }
    assert(n.children@.take(n.children@.len() as int) =~= n.children@);
    true
}

/// The capabilities of a parsed file, in pre-order of their defining nodes,
/// without authorship. Fails with `Decode` exactly when some node's span does
/// not cut the source at character boundaries.
pub fn extract_capabilities(lang: SourceLanguage, root: &SyntaxNode, source: &str) -> (r: Result<
    Vec<Capability>,
    ExtractError,
>)
    ensures
        match r {
            Ok(caps) => tree_ok(source.spec_bytes(), *root) && views(caps@) == extraction(
                lang,
                source.spec_bytes(),
                *root,
            ) && unattributed(caps@),
            Err(e) => !tree_ok(source.spec_bytes(), *root) && e == ExtractError::Decode,
        },
{
    if !spans_valid(source, root) {
        return Err(ExtractError::Decode);
    }
    let mut caps: Vec<Capability> = Vec::new();
    assert(views(caps@) =~= seq![]);
    walk_node(lang, source, root, false, false, &mut caps);
    assert(views(caps@) =~= extraction(lang, source.spec_bytes(), *root));
    Ok(caps)
}

/// Extracts capabilities from source files, one file at a time.
pub struct Shredder {}

impl Shredder {
    pub fn new() -> (r: Shredder) {
        Shredder {  }
    }

    /// The capabilities of a file with extension `ext` and text `source`.
    /// An unknown extension gives none. Otherwise the text is parsed with the
    /// extension's grammar (see `parse_source`) and the capabilities of the
    /// tree the parser gave are returned exactly as `extract_capabilities`
    /// states; `Decode` comes when that tree has a span that does not cut the
    /// text at character boundaries, and the other errors are the parser's.
    pub fn shred_source(&self, ext: &str, source: &str) -> (r: Result<Vec<Capability>, ExtractError>)
        ensures
            language_of_extension(ext@) is None ==> (r matches Ok(caps) && caps@.len() == 0),
            r matches Ok(caps) ==> unattributed(caps@),
            match (r, language_of_extension(ext@)) {
                (Ok(caps), Some(lang)) => exists|t: SyntaxNode|
                    tree_depth(t) <= MAX_TREE_DEPTH && tree_ok(source.spec_bytes(), t) && views(caps@)
                        == extraction(lang, source.spec_bytes(), t),
                (Err(ExtractError::Decode), Some(lang)) => exists|t: SyntaxNode|
                    tree_depth(t) <= MAX_TREE_DEPTH && !tree_ok(source.spec_bytes(), t),
                (Err(_), Some(_)) => true,
                (Err(_), None) => false,
                (Ok(_), None) => true,
            },
    {
        match language_for_extension(ext) {
            None => Ok(Vec::new()),
            Some(lang) => {
                let tree = parse_source(lang, source)?;
                extract_capabilities(lang, &tree, source)
            },
        }
    }
}

/// Every snippet of the sequence has at most `SNIPPET_CHARS` characters plus
/// a three-character ellipsis.
pub open spec fn snippets_short(s: Seq<CapabilityView>) -> bool {
    forall|i: int| 0 <= i < s.len() ==> (#[trigger] s[i]).snippet.len() <= SNIPPET_CHARS + 3
}

proof fn lemma_short_concat(a: Seq<CapabilityView>, b: Seq<CapabilityView>)
    requires
        snippets_short(a),
        snippets_short(b),
    ensures
        snippets_short(a + b),
{
    assert forall|i: int| 0 <= i < (a + b).len() implies (#[trigger] (a + b)[i]).snippet.len()
        <= SNIPPET_CHARS + 3 by {
        if i < a.len() {
            assert((a + b)[i] == a[i]);
        } else {
            assert((a + b)[i] == b[i - a.len()]);
        }
    }
}

proof fn lemma_type_records_short(bytes: Seq<u8>, n: SyntaxNode, k: int)
    ensures
        snippets_short(go_type_records(bytes, n, k)),
    decreases k,
{
    if k > 0 {
        lemma_type_records_short(bytes, n, k - 1);
        lemma_short_concat(go_type_records(bytes, n, k - 1), go_type_record(bytes, n, n.children@[k - 1]));
    }
}

proof fn lemma_walk_short(lang: SourceLanguage, bytes: Seq<u8>, n: SyntaxNode, visible: bool, parent_marked: bool)
    ensures
        snippets_short(walk(lang, bytes, n, visible, parent_marked)),
    decreases n,
{
    let v = visible || is_marker(lang, n);
    let own = node_records(lang, bytes, n, v, parent_marked);
    if lang == SourceLanguage::Go && n.kind@ == "type_declaration"@ {
        lemma_type_records_short(bytes, n, n.children@.len() as int);
    }
    assert(snippets_short(own));
    assert(decreases_to!(n => n.children@));
    lemma_walk_all_short(lang, bytes, n.children@, v, has_marked_child(n));
    lemma_short_concat(own, walk_all(lang, bytes, n.children@, v, has_marked_child(n)));
}

proof fn lemma_walk_all_short(
    lang: SourceLanguage,
    bytes: Seq<u8>,
    s: Seq<SyntaxNode>,
    visible: bool,
    parent_marked: bool,
)
    ensures
        snippets_short(walk_all(lang, bytes, s, visible, parent_marked)),
    decreases s,
{
    if s.len() > 0 {
        lemma_walk_all_short(lang, bytes, s.drop_last(), visible, parent_marked);
        lemma_walk_short(lang, bytes, s.last(), visible, parent_marked);
        lemma_short_concat(
            walk_all(lang, bytes, s.drop_last(), visible, parent_marked),
            walk(lang, bytes, s.last(), visible, parent_marked),
        );
    }
}

/// No extracted code snippet is longer than `SNIPPET_CHARS` characters plus
/// the three-character ellipsis.
pub proof fn snippets_are_bounded(lang: SourceLanguage, bytes: Seq<u8>, root: SyntaxNode)
    ensures
        forall|i: int|
            0 <= i < extraction(lang, bytes, root).len() ==> (#[trigger] extraction(
                lang,
                bytes,
                root,
            )[i]).snippet.len() <= SNIPPET_CHARS + 3,
{
    lemma_walk_short(lang, bytes, root, false, false);
}

/// A TypeScript/JavaScript function declaration with a non-empty name is
/// recorded first among its tree's capabilities, as a Component when the name
/// starts with an uppercase letter and as a Function otherwise.
pub proof fn typescript_function_kind(bytes: Seq<u8>, n: SyntaxNode, visible: bool, parent_marked: bool)
    requires
        n.kind@ == "function_declaration"@,
        first_of(n.children@, "identifier"@, "identifier"@) is Some,
        node_text(bytes, n.children@[first_of(n.children@, "identifier"@, "identifier"@)->0]).len() > 0,
    ensures
        ({
            let name = node_text(bytes, n.children@[first_of(n.children@, "identifier"@, "identifier"@)->0]);
            let caps = walk(SourceLanguage::TypeScript, bytes, n, visible, parent_marked);
            &&& caps.len() >= 1
            &&& caps[0].name == name
            &&& caps[0].kind == if starts_upper(name) {
                CapabilityKind::Component
            } else {
                CapabilityKind::Function
            }
        }),
{
}

/// A Rust function item with no visibility marker of its own, under a parent
/// without one and with no marker above it, yields no capability: its tree
/// contributes only what its children do.
pub proof fn private_rust_function_is_skipped(bytes: Seq<u8>, n: SyntaxNode)
    requires
        n.kind@ == "function_item"@,
        first_of(n.children@, "visibility_modifier"@, "visibility_modifier"@) is None,
    ensures
        walk(SourceLanguage::Rust, bytes, n, false, false) == walk_all(
            SourceLanguage::Rust,
            bytes,
            n.children@,
            false,
            false,
        ),
{
    reveal_strlit("function_item");
    reveal_strlit("visibility_modifier");
    assert("function_item"@.len() != "visibility_modifier"@.len());
    assert(n.kind@ != "visibility_modifier"@);
    assert(seq![] + walk_all(SourceLanguage::Rust, bytes, n.children@, false, false) =~= walk_all(
        SourceLanguage::Rust,
        bytes,
        n.children@,
        false,
        false,
    ));
}

/// Every name in the sequence starts with an uppercase letter.
pub open spec fn all_exported(s: Seq<CapabilityView>) -> bool {
    forall|i: int| 0 <= i < s.len() ==> starts_upper(#[trigger] s[i].name)
}

proof fn lemma_type_records_exported(bytes: Seq<u8>, n: SyntaxNode, k: int)
    ensures
        all_exported(go_type_records(bytes, n, k)),
    decreases k,
{
    if k > 0 {
        lemma_type_records_exported(bytes, n, k - 1);
        let a = go_type_records(bytes, n, k - 1);
        let b = go_type_record(bytes, n, n.children@[k - 1]);
        assert forall|i: int| 0 <= i < (a + b).len() implies starts_upper(#[trigger] (a + b)[i].name) by {
            if i < a.len() {
                assert((a + b)[i] == a[i]);
            } else {
                assert((a + b)[i] == b[i - a.len()]);
            }
        }
    }
}

/// A Go node yields only exported names: each function, method or type it
/// records has a name that starts with an uppercase letter.
pub proof fn go_records_are_exported(bytes: Seq<u8>, n: SyntaxNode)
    ensures
        all_exported(go_records(bytes, n)),
{
    lemma_type_records_exported(bytes, n, n.children@.len() as int);
}

} // verus!
