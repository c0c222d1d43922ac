//! The tree-sitter side of tag extraction: grammars, parsing and query
//! matching.  Every item here calls into tree-sitter or a grammar crate and is
//! trusted; what it hands back is plain data that the verified extractor reads.
use vstd::prelude::*;

use streaming_iterator::StreamingIterator;

use crate::tags::{scm_source, Lang};

verus! {

/// tree-sitter's `Language` (a grammar), carried through opaquely.
#[verifier::external_type_specification]
#[verifier::external_body]
pub struct ExLanguage(tree_sitter::Language);

/// tree-sitter's `Parser` (a parser), carried through opaquely.
#[verifier::external_type_specification]
#[verifier::external_body]
pub struct ExParser(tree_sitter::Parser);

/// tree-sitter's `Tree` (a syntax tree), carried through opaquely.
#[verifier::external_type_specification]
#[verifier::external_body]
pub struct ExTree(tree_sitter::Tree);

/// tree-sitter's `Query` (a compiled query), carried through opaquely.
#[verifier::external_type_specification]
#[verifier::external_body]
pub struct ExQuery(tree_sitter::Query);

/// tree-sitter's `LanguageError` (the error of setting a grammar), carried through opaquely.
#[verifier::external_type_specification]
#[verifier::external_body]
pub struct ExLanguageError(tree_sitter::LanguageError);

/// tree-sitter's `QueryError` (the error of compiling a query), carried through opaquely.
#[verifier::external_type_specification]
#[verifier::external_body]
pub struct ExQueryError(tree_sitter::QueryError);

/// One capture of a query match, as plain data.
#[derive(Debug, Clone)]
pub struct RawCapture {
    /// The capture's name in the query, e.g. `name.definition.function`.
    pub capture_name: String,
    /// 0-based row at which the captured node starts.
    pub row: usize,
    /// The captured node's source text; `None` when it is not valid UTF-8.
    pub text: Option<String>,
    /// The tree-sitter kind of the captured node, e.g. `identifier`.
    pub node_kind: String,
}

/// A capture as plain values.
pub struct CaptureView {
    pub capture_name: Seq<char>,
    pub row: usize,
    pub text: Option<Seq<char>>,
    pub node_kind: Seq<char>,
}

impl View for RawCapture {
    type V = CaptureView;

    open spec fn view(&self) -> CaptureView {
        CaptureView {
            capture_name: self.capture_name@,
            row: self.row,
            text: match self.text {
                Some(t) => Some(t@),
                None => None,
            },
            node_kind: self.node_kind@,
        }
    }
}

/// The views of a sequence of captures.
pub open spec fn capture_views(caps: Seq<RawCapture>) -> Seq<CaptureView> {
    caps.map_values(|c: RawCapture| c@)
}

/// `t` occurs in `s` as a run of consecutive characters.
pub open spec fn is_piece(t: Seq<char>, s: Seq<char>) -> bool {
    exists|i: int, j: int| 0 <= i <= j <= s.len() && #[trigger] s.subrange(i, j) == t
}

/// The number of line breaks (`\n`) in `s`.
pub open spec fn newline_count(s: Seq<char>) -> nat {
    s.filter(|c: char| c == '\n').len()
}

/// The grammar that a language's grammar crate provides (the `Language` its
/// entry point converts to; each entry point returns the same grammar every
/// time).
pub uninterp spec fn ts_grammar(lang: Lang) -> tree_sitter::Language;

/// Whether a grammar's ABI version lies in the range this tree-sitter
/// accepts (`MIN_COMPATIBLE_LANGUAGE_VERSION..=LANGUAGE_VERSION`).
pub uninterp spec fn abi_compatible(language: tree_sitter::Language) -> bool;

/// The grammar set on a parser, if any.
pub uninterp spec fn parser_grammar(parser: tree_sitter::Parser) -> Option<tree_sitter::Language>;

/// Whether a parser has neither a timeout nor a cancellation flag set.
pub uninterp spec fn parser_unlimited(parser: tree_sitter::Parser) -> bool;

/// The grammar a syntax tree was parsed with.
pub uninterp spec fn tree_grammar(tree: tree_sitter::Tree) -> tree_sitter::Language;

/// The text a syntax tree was parsed from.
pub uninterp spec fn tree_text(tree: tree_sitter::Tree) -> Seq<char>;

/// Whether `Query::new` accepts a query text for a grammar.
pub uninterp spec fn query_compiles(language: tree_sitter::Language, source: Seq<char>) -> bool;

/// The grammar a compiled query belongs to.
pub uninterp spec fn query_grammar(query: tree_sitter::Query) -> tree_sitter::Language;

/// The text a query was compiled from.
pub uninterp spec fn query_text(query: tree_sitter::Query) -> Seq<char>;

/// The captures, match by match and in tree-sitter's order, of the query
/// `query` (compiled for `language`) over the tree that `language` parses
/// from `source`.
pub uninterp spec fn ts_captures(language: tree_sitter::Language, query: Seq<char>, source: Seq<char>) -> Seq<CaptureView>;

/// `tree_sitter_rust::LANGUAGE`, converted to a `Language`.
#[verifier::external_body]
pub(crate) fn rust_grammar() -> (r: tree_sitter::Language)
    ensures
        r == ts_grammar(Lang::Rust),
{
    tree_sitter_rust::LANGUAGE.into()
}

/// `tree_sitter_python::LANGUAGE`, converted to a `Language`.
#[verifier::external_body]
pub(crate) fn python_grammar() -> (r: tree_sitter::Language)
    ensures
        r == ts_grammar(Lang::Python),
{
    tree_sitter_python::LANGUAGE.into()
}

/// `tree_sitter_typescript::LANGUAGE_TYPESCRIPT`, converted to a `Language`;
/// it is another grammar than `LANGUAGE_TSX`.
#[verifier::external_body]
pub(crate) fn typescript_grammar() -> (r: tree_sitter::Language)
    ensures
        r == ts_grammar(Lang::TypeScript),
        r != ts_grammar(Lang::TypeScriptX),
{
    tree_sitter_typescript::LANGUAGE_TYPESCRIPT.into()
}

/// `tree_sitter_typescript::LANGUAGE_TSX`, converted to a `Language`; it is
/// another grammar than `LANGUAGE_TYPESCRIPT` (`tree_sitter_tsx` and
/// `tree_sitter_typescript` are two parser tables).
#[verifier::external_body]
pub(crate) fn tsx_grammar() -> (r: tree_sitter::Language)
    ensures
        r == ts_grammar(Lang::TypeScriptX),
        r != ts_grammar(Lang::TypeScript),
{
    tree_sitter_typescript::LANGUAGE_TSX.into()
}

/// `tree_sitter_javascript::LANGUAGE`, converted to a `Language`.
#[verifier::external_body]
pub(crate) fn javascript_grammar() -> (r: tree_sitter::Language)
    ensures
        r == ts_grammar(Lang::JavaScript),
{
    tree_sitter_javascript::LANGUAGE.into()
}

/// `tree_sitter_go::LANGUAGE`, converted to a `Language`.
#[verifier::external_body]
pub(crate) fn go_grammar() -> (r: tree_sitter::Language)
    ensures
        r == ts_grammar(Lang::Go),
{
    tree_sitter_go::LANGUAGE.into()
}

/// `tree_sitter_java::LANGUAGE`, converted to a `Language`.
#[verifier::external_body]
pub(crate) fn java_grammar() -> (r: tree_sitter::Language)
    ensures
        r == ts_grammar(Lang::Java),
{
    tree_sitter_java::LANGUAGE.into()
}

/// `tree_sitter_ruby::LANGUAGE`, converted to a `Language`.
#[verifier::external_body]
pub(crate) fn ruby_grammar() -> (r: tree_sitter::Language)
    ensures
        r == ts_grammar(Lang::Ruby),
{
    tree_sitter_ruby::LANGUAGE.into()
}

/// `tree_sitter_c::LANGUAGE`, converted to a `Language`.
#[verifier::external_body]
pub(crate) fn c_grammar() -> (r: tree_sitter::Language)
    ensures
        r == ts_grammar(Lang::C),
{
    tree_sitter_c::LANGUAGE.into()
}

/// `tree_sitter_cpp::LANGUAGE`, converted to a `Language`.
#[verifier::external_body]
pub(crate) fn cpp_grammar() -> (r: tree_sitter::Language)
    ensures
        r == ts_grammar(Lang::Cpp),
{
    tree_sitter_cpp::LANGUAGE.into()
}

/// `npezza93_tree_sitter_swift::language()`, which still has the older
/// function-style entry point.
#[verifier::external_body]
pub(crate) fn swift_grammar() -> (r: tree_sitter::Language)
    ensures
        r == ts_grammar(Lang::Swift),
{
    npezza93_tree_sitter_swift::language()
}

/// `Parser::new`: a parser with no language set, no timeout and no
/// cancellation flag.
#[verifier::external_body]
pub(crate) fn new_parser() -> (r: tree_sitter::Parser)
    ensures
        parser_grammar(r) == None::<tree_sitter::Language>,
        parser_unlimited(r),
{
    tree_sitter::Parser::new()
}

/// `Parser::set_language`; fails, leaving the parser as it was, exactly when
/// the grammar's ABI version is not one that this tree-sitter accepts, and
/// otherwise sets the grammar.  It changes neither timeout nor cancellation
/// flag.
#[verifier::external_body]
pub(crate) fn set_parser_language(
    parser: &mut tree_sitter::Parser,
    language: &tree_sitter::Language,
) -> (r: Result<(), tree_sitter::LanguageError>)
    ensures
        r is Ok <==> abi_compatible(*language),
        r is Ok ==> parser_grammar(*final(parser)) == Some(*language),
        r is Err ==> parser_grammar(*final(parser)) == parser_grammar(*old(parser)),
        parser_unlimited(*final(parser)) == parser_unlimited(*old(parser)),
{
    parser.set_language(language)
}

/// The `Display` text of a `LanguageError`.
#[verifier::external_body]
pub(crate) fn language_error_text(e: &tree_sitter::LanguageError) -> String {
    e.to_string()
}

/// `Parser::parse` of the whole text, without an earlier tree.  Returns `None`
/// only when no language was set or a timeout or cancellation flag stopped
/// it; the tree it returns was parsed from `source` with the parser's grammar.
#[verifier::external_body]
pub(crate) fn parse_source(parser: &mut tree_sitter::Parser, source: &str) -> (r: Option<tree_sitter::Tree>)
    ensures
        parser_grammar(*old(parser)) is Some && parser_unlimited(*old(parser)) ==> r is Some,
        r matches Some(t) ==> parser_grammar(*old(parser)) == Some(tree_grammar(t))
            && tree_text(t) == source@,
{
    parser.parse(source, None)
}

/// `Query::new`: compiles a query against a grammar; fails on syntax errors
/// and on node types, fields or structure the grammar does not have, which
/// depends on the grammar and the query text alone.  `Query::new` panics when
/// such a name error lies at offset 0 (it reads the byte before the name), so
/// the text must be one of the library's tag queries, each of which starts
/// with a line break.
#[verifier::external_body]
pub(crate) fn compile_query(
    language: &tree_sitter::Language,
    source: &str,
) -> (r: Result<tree_sitter::Query, tree_sitter::QueryError>)
    requires
        exists|l: Lang| source@ == #[trigger] scm_source(l)@,
    ensures
        r is Ok <==> query_compiles(*language, source@),
        r matches Ok(q) ==> query_grammar(q) == *language && query_text(q) == source@,
{
    tree_sitter::Query::new(language, source)
}

/// The `Debug` text of a `QueryError`.
#[verifier::external_body]
pub(crate) fn query_error_text(e: &tree_sitter::QueryError) -> String {
    format!("{:?}", e)
}

/// Runs `QueryCursor::matches` of `query` over the whole tree and hands out
/// every capture of every match, in the order tree-sitter yields them, each
/// mapped to plain data.  The tree must have been parsed from `source` with
/// the query's grammar (node texts are sliced out of `source`).  A capture's
/// text is the slice of `source` between the node's start and end bytes when
/// that slice is valid UTF-8, so a run of `source`'s characters; its row
/// counts the line breaks before the node's start.
#[verifier::external_body]
pub(crate) fn query_captures(query: &tree_sitter::Query, tree: &tree_sitter::Tree, source: &str) -> (r: Vec<RawCapture>)
    requires
        query_grammar(*query) == tree_grammar(*tree),
        tree_text(*tree) == source@,
    ensures
        capture_views(r@) == ts_captures(query_grammar(*query), query_text(*query), source@),
        forall|i: int| 0 <= i < r.len() ==> (#[trigger] r@[i]).row <= newline_count(source@)
            && (r@[i].text matches Some(t) ==> is_piece(t@, source@)),
{
    let mut cursor = tree_sitter::QueryCursor::new();
    let names = query.capture_names();
    let mut matches = cursor.matches(query, tree.root_node(), source.as_bytes());
    let mut out = Vec::new();
    while let Some(m) = matches.next() {
        for cap in m.captures {
            out.push(RawCapture {
                capture_name: names[cap.index as usize].to_string(),
                row: cap.node.start_position().row,
                text: cap.node.utf8_text(source.as_bytes()).ok().map(|t| t.to_string()),
                node_kind: cap.node.kind().to_string(),
            });
        }
    }
    out
}

} // verus!
