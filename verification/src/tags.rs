//! Tags: named definition and reference sites extracted from source files.
//!
//! A query capture named `name.definition.*` yields a definition tag, one
//! named `name.reference.*` a reference tag; every other capture is skipped.
use vstd::prelude::*;

use crate::error::MapError;
use crate::grammar::{
    c_grammar, compile_query, cpp_grammar, go_grammar, java_grammar, javascript_grammar,
    language_error_text, new_parser, parse_source, python_grammar, query_captures,
    query_error_text, ruby_grammar, rust_grammar, set_parser_language, swift_grammar,
    tsx_grammar, typescript_grammar, RawCapture, CaptureView, capture_views, ts_grammar,
    abi_compatible, query_compiles, ts_captures, is_piece, newline_count,
};
use crate::queries::{
    CPP_SCM, C_SCM, GO_SCM, JAVASCRIPT_SCM, JAVA_SCM, PYTHON_SCM, RUBY_SCM, RUST_SCM, SWIFT_SCM,
    TYPESCRIPT_SCM,
};
use crate::text::{chars_of, has_prefix, str_eq};

verus! {

/// Which grammar to use when parsing a file.
#[derive(Debug, Clone, Copy, PartialEq, Eq, Structural)]
pub enum Lang {
    Rust,
    Python,
    /// TypeScript (.ts); `TypeScriptX` is for .tsx
    TypeScript,
    /// TypeScript with JSX (.tsx)
    TypeScriptX,
    JavaScript,
    Go,
    Java,
    Ruby,
    C,
    Cpp,
    Swift,
}

/// The language of a file extension (without the dot), if supported.
pub open spec fn ext_lang(ext: Seq<char>) -> Option<Lang> {
    if ext == "rs"@ {
        Some(Lang::Rust)
    } else if ext == "py"@ {
        Some(Lang::Python)
    } else if ext == "ts"@ {
        Some(Lang::TypeScript)
    } else if ext == "tsx"@ {
        Some(Lang::TypeScriptX)
    } else if ext == "js"@ || ext == "mjs"@ || ext == "cjs"@ {
        Some(Lang::JavaScript)
    } else if ext == "go"@ {
        Some(Lang::Go)
    } else if ext == "java"@ {
        Some(Lang::Java)
    } else if ext == "rb"@ {
        Some(Lang::Ruby)
    } else if ext == "c"@ || ext == "h"@ {
        Some(Lang::C)
    } else if ext == "cpp"@ || ext == "cc"@ || ext == "cxx"@ || ext == "hpp"@ || ext == "hxx"@ {
        Some(Lang::Cpp)
    } else if ext == "swift"@ {
        Some(Lang::Swift)
    } else {
        None
    }
}

/// The index of the last `c` in `s`, or -1 when there is none.
pub open spec fn last_index_of(s: Seq<char>, c: char) -> int
    decreases s.len(),
{
    if s.len() == 0 {
        -1
    } else if s.last() == c {
        s.len() - 1
    } else {
        last_index_of(s.drop_last(), c)
    }
}

/// `last_index_of` is -1 or an index of `s`.
pub proof fn lemma_last_index_bounds(s: Seq<char>, c: char)
    ensures
        -1 <= last_index_of(s, c) < s.len(),
    decreases s.len(),
{
    if s.len() > 0 {
        lemma_last_index_bounds(s.drop_last(), c);
    }
}

/// The final component of a Unix path, as `Path::file_name` gives it: the
/// last part between `/` separators, where empty parts and `.` parts do not
/// count; `None` when there is none or when it is `..`.
pub open spec fn path_file_name(p: Seq<char>) -> Option<Seq<char>>
    decreases p.len(),
{
    if p.len() == 0 {
        None
    } else {
        let i = last_index_of(p, '/');
        proof {
            lemma_last_index_bounds(p, '/');
        }
        let seg = p.subrange(i + 1, p.len() as int);
        if seg.len() == 0 || seg == "."@ {
            if i < 0 {
                None
            } else {
                path_file_name(p.subrange(0, i))
            }
        } else if seg == ".."@ {
            None
        } else {
            Some(seg)
        }
    }
}

/// The extension of a file name: the part after its last `.`, when that `.`
/// is not the name's first character.
pub open spec fn name_extension(name: Seq<char>) -> Option<Seq<char>> {
    let d = last_index_of(name, '.');
    if d <= 0 {
        None
    } else {
        Some(name.subrange(d + 1, name.len() as int))
    }
}

/// The extension of a Unix path as `std::path::Path::extension` computes it:
/// that of its final component, if it has one.
pub open spec fn path_extension(path: Seq<char>) -> Option<Seq<char>> {
    match path_file_name(path) {
        Some(n) => name_extension(n),
        None => None,
    }
}

/// `Path::new(path).extension()`, as a string (the extension of a `&str`
/// path is always valid UTF-8), on Unix paths: see `path_extension`.
#[verifier::external_body]
fn file_extension(path: &str) -> (r: Option<String>)
    ensures
        path_extension(path@) == (match r {
            Some(e) => Some(e@),
            None => None,
        }),
{
    std::path::Path::new(path).extension().and_then(|e| e.to_str()).map(|e| e.to_string())
}

/// The language of a file extension (without the dot); `None` when the
/// extension is not one of the supported ones.
pub fn lang_for_extension(ext: &str) -> (r: Option<Lang>)
    ensures
        r == ext_lang(ext@),
{
    if str_eq(ext, "rs") {
        Some(Lang::Rust)
    } else if str_eq(ext, "py") {
        Some(Lang::Python)
    } else if str_eq(ext, "ts") {
        Some(Lang::TypeScript)
    } else if str_eq(ext, "tsx") {
        Some(Lang::TypeScriptX)
    } else if str_eq(ext, "js") || str_eq(ext, "mjs") || str_eq(ext, "cjs") {
        Some(Lang::JavaScript)
    } else if str_eq(ext, "go") {
        Some(Lang::Go)
    } else if str_eq(ext, "java") {
        Some(Lang::Java)
    } else if str_eq(ext, "rb") {
        Some(Lang::Ruby)
    } else if str_eq(ext, "c") || str_eq(ext, "h") {
        Some(Lang::C)
    } else if str_eq(ext, "cpp") || str_eq(ext, "cc") || str_eq(ext, "cxx") || str_eq(ext, "hpp")
        || str_eq(ext, "hxx") {
        Some(Lang::Cpp)
    } else if str_eq(ext, "swift") {
        Some(Lang::Swift)
    } else {
        None
    }
}

/// The human-readable name of a language.
pub open spec fn lang_name(lang: Lang) -> Seq<char> {
    match lang {
        Lang::Rust => "Rust"@,
        Lang::Python => "Python"@,
        Lang::TypeScript => "TypeScript"@,
        Lang::TypeScriptX => "TypeScriptX"@,
        Lang::JavaScript => "JavaScript"@,
        Lang::Go => "Go"@,
        Lang::Java => "Java"@,
        Lang::Ruby => "Ruby"@,
        Lang::C => "C"@,
        Lang::Cpp => "C++"@,
        Lang::Swift => "Swift"@,
    }
}

impl Lang {
    /// Infer the language from a file path's extension; `None` for
    /// unsupported extensions and for paths without one.
    pub fn from_ext(path: &str) -> (r: Option<Lang>)
        ensures
            r == (match path_extension(path@) {
                Some(e) => ext_lang(e),
                None => None,
            }),
    {
        match file_extension(path) {
            Some(e) => lang_for_extension(e.as_str()),
            None => None,
        }
    }

    /// Human-readable name for diagnostics.
    pub fn name(self) -> (r: &'static str)
        ensures
            r@ == lang_name(self),
    {
        match self {
            Lang::Rust => "Rust",
            Lang::Python => "Python",
            Lang::TypeScript => "TypeScript",
            Lang::TypeScriptX => "TypeScriptX",
            Lang::JavaScript => "JavaScript",
            Lang::Go => "Go",
            Lang::Java => "Java",
            Lang::Ruby => "Ruby",
            Lang::C => "C",
            Lang::Cpp => "C++",
            Lang::Swift => "Swift",
        }
    }
}

/// The tag query used for a language; .ts and .tsx share one.
pub open spec fn scm_source(lang: Lang) -> &'static str {
    match lang {
        Lang::Rust => RUST_SCM,
        Lang::Python => PYTHON_SCM,
        Lang::TypeScript => TYPESCRIPT_SCM,
        Lang::TypeScriptX => TYPESCRIPT_SCM,
        Lang::JavaScript => JAVASCRIPT_SCM,
        Lang::Go => GO_SCM,
        Lang::Java => JAVA_SCM,
        Lang::Ruby => RUBY_SCM,
        Lang::C => C_SCM,
        Lang::Cpp => CPP_SCM,
        Lang::Swift => SWIFT_SCM,
    }
}

/// Whether a language is TypeScript, with or without JSX.
pub open spec fn is_typescript(lang: Lang) -> bool {
    lang == Lang::TypeScript || lang == Lang::TypeScriptX
}

/// Definition patterns written in a language's own grammar: node types and
/// fields that its grammar has (C++ classes and in-class methods, TypeScript
/// interfaces and method signatures, Go type specs, ...).
pub open spec fn definition_patterns(lang: Lang) -> Seq<Seq<char>> {
    match lang {
        Lang::Rust => seq!["(struct_item\n    name: (type_identifier) @name.definition.class)"@],
        Lang::Python => seq!["(class_definition\n  name: (identifier) @name.definition.class)"@],
        Lang::TypeScript => seq!["(interface_declaration\n  name: (type_identifier) @name.definition.interface)"@, "(method_signature\n  name: (property_identifier) @name.definition.method)"@],
        Lang::TypeScriptX => seq!["(interface_declaration\n  name: (type_identifier) @name.definition.interface)"@, "(method_signature\n  name: (property_identifier) @name.definition.method)"@],
        Lang::JavaScript => seq!["(method_definition\n    name: (property_identifier) @name.definition.method)"@],
        Lang::Go => seq!["(type_spec\n  name: (type_identifier) @name.definition.type)"@, "(method_declaration\n    name: (field_identifier) @name.definition.method)"@],
        Lang::Java => seq!["(class_declaration\n  name: (identifier) @name.definition.class)"@],
        Lang::Ruby => seq!["(singleton_method\n      name: (_) @name.definition.method)"@],
        Lang::C => seq!["(struct_specifier name: (type_identifier) @name.definition.class body:(_))"@, "(function_declarator declarator: (identifier) @name.definition.function)"@],
        Lang::Cpp => seq!["(class_specifier name: (type_identifier) @name.definition.class)"@, "(function_declarator declarator: (field_identifier) @name.definition.function)"@],
        Lang::Swift => seq!["(protocol_declaration\n  name: (type_identifier) @name.definition.interface)"@],
    }
}

/// Each language's tag query is written for its own grammar: it holds every
/// definition pattern of that grammar listed in `definition_patterns`.
pub proof fn lemma_query_fits_grammar(lang: Lang)
    ensures
        forall|k: int|
            0 <= k < definition_patterns(lang).len() ==> is_piece(
                #[trigger] definition_patterns(lang)[k],
                scm_source(lang)@,
            ),
{
    match lang {
        Lang::Rust => crate::queries::lemma_rust_scm(),
        Lang::Python => crate::queries::lemma_python_scm(),
        Lang::TypeScript => crate::queries::lemma_typescript_scm(),
        Lang::TypeScriptX => crate::queries::lemma_typescript_scm(),
        Lang::JavaScript => crate::queries::lemma_javascript_scm(),
        Lang::Go => crate::queries::lemma_go_scm(),
        Lang::Java => crate::queries::lemma_java_scm(),
        Lang::Ruby => crate::queries::lemma_ruby_scm(),
        Lang::C => crate::queries::lemma_c_scm(),
        Lang::Cpp => crate::queries::lemma_cpp_scm(),
        Lang::Swift => crate::queries::lemma_swift_scm(),
    }
}

/// Each language has a tag query of its own; only .ts and .tsx share one.
pub proof fn lemma_queries_distinct(a: Lang, b: Lang)
    ensures
        (scm_source(a)@ == scm_source(b)@) <==> (a == b || (is_typescript(a) && is_typescript(b))),
{
    crate::queries::lemma_rust_scm();
    crate::queries::lemma_python_scm();
    crate::queries::lemma_typescript_scm();
    crate::queries::lemma_javascript_scm();
    crate::queries::lemma_go_scm();
    crate::queries::lemma_java_scm();
    crate::queries::lemma_ruby_scm();
    crate::queries::lemma_c_scm();
    crate::queries::lemma_cpp_scm();
    crate::queries::lemma_swift_scm();
}

/// The tag query source for a language.
pub fn scm_for(lang: Lang) -> (r: &'static str)
    ensures
        r == scm_source(lang),
{
    match lang {
        Lang::Rust => RUST_SCM,
        Lang::Python => PYTHON_SCM,
        Lang::TypeScript | Lang::TypeScriptX => TYPESCRIPT_SCM,
        Lang::JavaScript => JAVASCRIPT_SCM,
        Lang::Go => GO_SCM,
        Lang::Java => JAVA_SCM,
        Lang::Ruby => RUBY_SCM,
        Lang::C => C_SCM,
        Lang::Cpp => CPP_SCM,
        Lang::Swift => SWIFT_SCM,
    }
}

/// The tree-sitter grammar of a language: one grammar crate's `LANGUAGE`
/// (Swift: `language()`) per variant; .ts and .tsx use the TypeScript
/// crate's two grammars.
pub fn language_for(lang: Lang) -> (r: tree_sitter::Language)
    ensures
        r == ts_grammar(lang),
        lang == Lang::TypeScript || lang == Lang::TypeScriptX ==> ts_grammar(Lang::TypeScript)
            != ts_grammar(Lang::TypeScriptX),
{
    match lang {
        Lang::Rust => rust_grammar(),
        Lang::Python => python_grammar(),
        Lang::TypeScript => typescript_grammar(),
        Lang::TypeScriptX => tsx_grammar(),
        Lang::JavaScript => javascript_grammar(),
        Lang::Go => go_grammar(),
        Lang::Java => java_grammar(),
        Lang::Ruby => ruby_grammar(),
        Lang::C => c_grammar(),
        Lang::Cpp => cpp_grammar(),
        Lang::Swift => swift_grammar(),
    }
}

/// Whether a tag identifies a definition site or a reference site.
#[derive(Debug, Clone, Copy, PartialEq, Eq, Structural)]
pub enum TagKind {
    Def,
    Ref,
}

/// A single named tag extracted from a source file.
#[derive(Debug, Clone)]
pub struct Tag {
    /// Relative file path (the file's key in the graph).
    pub rel_fname: String,
    /// The identifier text (e.g. a function name).
    pub name: String,
    /// 0-based line number in the source.
    pub line: usize,
    /// Definition or reference.
    pub kind: TagKind,
    /// The tree-sitter kind of the captured node (e.g. "identifier").
    pub node_kind: String,
}

/// A tag as plain values.
pub struct TagView {
    pub rel_fname: Seq<char>,
    pub name: Seq<char>,
    pub line: usize,
    pub kind: TagKind,
    pub node_kind: Seq<char>,
}

impl View for Tag {
    type V = TagView;

    open spec fn view(&self) -> TagView {
        TagView {
            rel_fname: self.rel_fname@,
            name: self.name@,
            line: self.line,
            kind: self.kind,
            node_kind: self.node_kind@,
        }
    }
}

/// The views of a sequence of tags.
pub open spec fn tag_views(tags: Seq<Tag>) -> Seq<TagView> {
    tags.map_values(|t: Tag| t@)
}

/// The tag kind a capture name routes to.
pub open spec fn capture_kind_of(name: Seq<char>) -> Option<TagKind> {
    if name.len() >= "name.definition."@.len() && name.take("name.definition."@.len() as int)
        == "name.definition."@ {
        Some(TagKind::Def)
    } else if name.len() >= "name.reference."@.len() && name.take("name.reference."@.len() as int)
        == "name.reference."@ {
        Some(TagKind::Ref)
    } else {
        None
    }
}

/// The tag of file `rel` that a capture of kind `kind` yields.
pub open spec fn capture_tag(rel: Seq<char>, cap: CaptureView, kind: TagKind) -> TagView {
    TagView {
        rel_fname: rel,
        name: match cap.text {
            Some(t) => t,
            None => Seq::empty(),
        },
        line: cap.row,
        kind: kind,
        node_kind: cap.node_kind,
    }
}

/// The tags that a sequence of captures yields, in capture order.
pub open spec fn captured_tags(rel: Seq<char>, caps: Seq<CaptureView>) -> Seq<TagView>
    decreases caps.len(),
{
    if caps.len() == 0 {
        Seq::empty()
    } else {
        let prev = captured_tags(rel, caps.drop_last());
        match capture_kind_of(caps.last().capture_name) {
            Some(k) => prev.push(capture_tag(rel, caps.last(), k)),
            None => prev,
        }
    }
}

/// Route a capture name: `name.definition.*` is a definition,
/// `name.reference.*` a reference, anything else yields no tag.
pub fn capture_kind(capture_name: &str) -> (r: Option<TagKind>)
    ensures
        r == capture_kind_of(capture_name@),
{
    let name = chars_of(capture_name);
    let def_prefix = chars_of("name.definition.");
    let ref_prefix = chars_of("name.reference.");
    if has_prefix(&name, &def_prefix) {
        Some(TagKind::Def)
    } else if has_prefix(&name, &ref_prefix) {
        Some(TagKind::Ref)
    } else {
        None
    }
}

/// The tags of file `rel_fname` that a sequence of query captures yields.
pub fn tags_from_captures(rel_fname: &str, captures: &[RawCapture]) -> (r: Vec<Tag>)
    ensures
        tag_views(r@) == captured_tags(rel_fname@, capture_views(captures@)),
{
    let mut tags: Vec<Tag> = Vec::new();
    let mut i: usize = 0;
    while i < captures.len()
        invariant
            i <= captures.len(),
            tag_views(tags@) == captured_tags(rel_fname@, capture_views(captures@.take(i as int))),
        decreases captures.len() - i,
    {
        let cap = &captures[i];
        proof {
            assert(capture_views(captures@.take(i + 1)).drop_last() =~= capture_views(captures@.take(i as int)));
            assert(capture_views(captures@.take(i + 1)).last() == captures@[i as int]@);
        }
        match capture_kind(cap.capture_name.as_str()) {
            Some(kind) => {
                let name = match &cap.text {
                    Some(t) => t.clone(),
                    None => String::new(),
                };
                let tag = Tag {
                    rel_fname: rel_fname.to_owned(),
                    name: name,
                    line: cap.row,
                    kind: kind,
                    node_kind: cap.node_kind.clone(),
                };
                let ghost before = tags@;
                tags.push(tag);
                proof {
                    assert(tag_views(tags@) =~= tag_views(before).push(tag@));
                    assert(tag@ == capture_tag(rel_fname@, captures@[i as int]@, kind));
                }
            },
            None => {},
        }
        i = i + 1;
    }
    assert(captures@.take(i as int) =~= captures@);
    tags
}

/// Whether this tree-sitter accepts the grammar of a language.
pub open spec fn grammar_loads(lang: Lang) -> bool {
    abi_compatible(ts_grammar(lang))
}

/// Whether the tag query of a language compiles against its grammar.
pub open spec fn query_loads(lang: Lang) -> bool {
    query_compiles(ts_grammar(lang), scm_source(lang)@)
}

/// The captures of a language's tag query over `source`.
pub open spec fn lang_captures(lang: Lang, source: Seq<char>) -> Seq<CaptureView> {
    ts_captures(ts_grammar(lang), scm_source(lang)@, source)
}

/// Every tag that captures drawn from `source` yield names a run of
/// `source`'s characters and lies on one of its lines.
proof fn lemma_captured_tags_in_source(rel: Seq<char>, caps: Seq<CaptureView>, source: Seq<char>)
    requires
        forall|j: int| 0 <= j < caps.len() ==> (#[trigger] caps[j]).row <= newline_count(source)
            && (caps[j].text matches Some(t) ==> is_piece(t, source)),
    ensures
        forall|k: int| 0 <= k < captured_tags(rel, caps).len() ==> is_piece(
            #[trigger] captured_tags(rel, caps)[k].name,
            source,
        ) && captured_tags(rel, caps)[k].line <= newline_count(source),
    decreases caps.len(),
{
    if caps.len() > 0 {
        let prev = caps.drop_last();
        assert forall|j: int| 0 <= j < prev.len() implies (#[trigger] prev[j]).row <= newline_count(source)
            && (prev[j].text matches Some(t) ==> is_piece(t, source)) by {
            assert(prev[j] == caps[j]);
        }
        lemma_captured_tags_in_source(rel, prev, source);
        let last = caps[caps.len() - 1];
        assert(last.row <= newline_count(source));
        if last.text is None {
            assert(source.subrange(0, 0) =~= Seq::<char>::empty());
        }
    }
}

/// Extract all tags of `source` (the text of file `rel_fname`) in language
/// `lang`: the tags that the language's query captures yield.
///
/// Succeeds exactly when the grammar loads and the language's query compiles
/// against it; otherwise fails with `QueryCompile`.  (The parse itself cannot
/// fail: the parser has a grammar and no timeout.)  Which captures the grammar
/// and query produce is tree-sitter's to decide (`ts_captures`).
pub fn extract_tags(rel_fname: &str, source: &str, lang: Lang) -> (r: Result<Vec<Tag>, MapError>)
    ensures
        r is Ok <==> grammar_loads(lang) && query_loads(lang),
        r matches Ok(tags) ==> tag_views(tags@) == captured_tags(rel_fname@, lang_captures(lang, source@)),
        r matches Err(e) ==> e is QueryCompile,
        r matches Ok(tags) ==> forall|k: int| 0 <= k < tags.len() ==> is_piece(
            (#[trigger] tags@[k]).name@,
            source@,
        ) && tags@[k].line <= newline_count(source@),
{
    let language = language_for(lang);
    let mut parser = new_parser();
    match set_parser_language(&mut parser, &language) {
        Ok(()) => {},
        Err(e) => {
            return Err(MapError::QueryCompile(language_error_text(&e)));
        },
    }
    let tree = match parse_source(&mut parser, source) {
        Some(t) => t,
        None => {
            return Err(MapError::ParseFailed(rel_fname.to_owned()));
        },
    };
    let scm = scm_for(lang);
    assert(scm@ == scm_source(lang)@);
    let query = match compile_query(&language, scm) {
        Ok(q) => q,
        Err(e) => {
            return Err(MapError::QueryCompile(query_error_text(&e)));
        },
    };
    let caps = query_captures(&query, &tree, source);
    let tags = tags_from_captures(rel_fname, caps.as_slice());
    proof {
        let cv = capture_views(caps@);
        assert forall|j: int| 0 <= j < cv.len() implies (#[trigger] cv[j]).row <= newline_count(source@)
            && (cv[j].text matches Some(t) ==> is_piece(t, source@)) by {
            assert(cv[j] == caps@[j]@);
        }
        lemma_captured_tags_in_source(rel_fname@, cv, source@);
        assert forall|k: int| 0 <= k < tags.len() implies is_piece((#[trigger] tags@[k]).name@, source@)
            && tags@[k].line <= newline_count(source@) by {
            assert(tag_views(tags@)[k] == tags@[k]@);
            assert(captured_tags(rel_fname@, cv)[k] == tags@[k]@);
            assert(is_piece(captured_tags(rel_fname@, cv)[k].name, source@));
        }
    }
    Ok(tags)
}

} // verus!
