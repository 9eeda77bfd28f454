//! Source fingerprinting and fragment construction.

use std::sync::Arc;

use vstd::prelude::*;

use crate::languages::collect::{edge_of, Collected, ExtractError};
use crate::languages::parse::{parse_syntax, syntax_of};
use crate::languages::syntax::SyntaxNode;
use crate::languages::{
    dotted, language_with_extension, language_with_id, LanguageRegistry, LanguageSupport,
};
use crate::seqs::find_first;
use crate::storage::models::{EdgeData, EdgeDataView, NodeData, NodeDataView};
use crate::text::{join, same_text, starts_with_seq, text_starts_with};

verus! {

/// The graph fragment extracted from one file: nodes in extraction order,
/// edges between positions of that order, and the content fingerprint.
#[derive(Debug)]
pub struct FileGraphData {
    pub nodes: Vec<NodeData>,
    pub edges: Vec<EdgeData>,
    pub content_hash: String,
}

/// Mathematical value of a [`FileGraphData`].
pub struct FragmentView {
    pub nodes: Seq<NodeDataView>,
    pub edges: Seq<EdgeDataView>,
    pub content_hash: Seq<char>,
}

impl View for FileGraphData {
    type V = FragmentView;

    open spec fn view(&self) -> FragmentView {
        FragmentView {
            nodes: self.nodes.deep_view(),
            edges: self.edges.deep_view(),
            content_hash: self.content_hash@,
        }
    }
}

impl FragmentView {
    /// Every edge joins two positions of the node list.
    pub open spec fn closed(self) -> bool {
        forall|i: int|
            0 <= i < self.edges.len() ==> (#[trigger] self.edges[i]).source_idx < self.nodes.len()
                && self.edges[i].target_idx < self.nodes.len()
    }
}

/// The lower-case hexadecimal digit for a value below sixteen.
pub open spec fn hex_digit(v: int) -> char {
    if v == 0 { '0' } else if v == 1 { '1' } else if v == 2 { '2' } else if v == 3 { '3' }
    else if v == 4 { '4' } else if v == 5 { '5' } else if v == 6 { '6' } else if v == 7 { '7' }
    else if v == 8 { '8' } else if v == 9 { '9' } else if v == 10 { 'a' } else if v == 11 { 'b' }
    else if v == 12 { 'c' } else if v == 13 { 'd' } else if v == 14 { 'e' } else { 'f' }
}

/// The hexadecimal text of a byte string: two digits per byte, high nibble first.
pub open spec fn hex_text(bytes: Seq<u8>) -> Seq<char> {
    Seq::new(2 * bytes.len(), |i: int| if i % 2 == 0 {
        hex_digit(bytes[i / 2] as int / 16)
    } else {
        hex_digit(bytes[i / 2] as int % 16)
    })
}

/// The lower-case hexadecimal digit for a value below sixteen.
fn hex_char(v: u8) -> (c: char)
    requires
        v < 16,
    ensures
        c == hex_digit(v as int),
{
    match v {
        0 => '0', 1 => '1', 2 => '2', 3 => '3', 4 => '4', 5 => '5', 6 => '6', 7 => '7',
        8 => '8', 9 => '9', 10 => 'a', 11 => 'b', 12 => 'c', 13 => 'd', 14 => 'e', _ => 'f',
    }
}

/// Encodes bytes as lower-case hexadecimal text.
pub fn encode(bytes: &[u8]) -> (text: String)
    ensures
        text@ == hex_text(bytes@),
{
    let mut text = String::new();
    let mut i: usize = 0;
    while i < bytes.len()
        invariant
            i <= bytes.len(),
            text@ == hex_text(bytes@.take(i as int)),
        decreases bytes.len() - i,
    {
        let b: u8 = bytes[i];
        let hi = hex_char(b / 16);
        let lo = hex_char(b % 16);
        let ghost before = text@;
        text.push(hi);
        text.push(lo);
        proof {
            let prev = bytes@.take(i as int);
            let next = bytes@.take(i + 1);
            assert(next.len() == i + 1);
            assert(forall|k: int| 0 <= k < i ==> next[k] == prev[k]);
            assert(text@ =~= hex_text(next));
        }
        i = i + 1;
    }
    proof {
        assert(bytes@.take(bytes.len() as int) =~= bytes@);
    }
    text
}

/// The SHA-256 digest of a byte string.
pub uninterp spec fn sha256_digest(bytes: Seq<u8>) -> Seq<u8>;

/// `Sha256::new`, `Digest::update` and `Digest::finalize` of the sha2
/// crate: the SHA-256 digest of the bytes, which is 32 bytes long and the
/// same for the same bytes.
#[verifier::external_body]
fn sha256(bytes: &[u8]) -> (digest: Vec<u8>)
    ensures
        digest@ == sha256_digest(bytes@),
        digest@.len() == 32,
{
    let mut hasher = <sha2::Sha256 as sha2::Digest>::new();
    sha2::Digest::update(&mut hasher, bytes);
    sha2::Digest::finalize(hasher).to_vec()
}

/// The fingerprint of a text: the hexadecimal SHA-256 digest of its UTF-8
/// encoding.
pub open spec fn fingerprint(content: Seq<char>) -> Seq<char> {
    hex_text(sha256_digest(vstd::utf8::encode_utf8(content)))
}

/// Computes the fingerprint of a text.
pub fn compute_hash(content: &str) -> (hash: String)
    ensures
        hash@ == fingerprint(content@),
        hash@.len() == 64,
{
    let digest = sha256(content.as_bytes());
    encode(digest.as_slice())
}

/// Why a source could not be turned into a fragment.
#[derive(Debug)]
pub enum ParseError {
    /// No extractor is registered for the language.
    Unsupported(String),
    /// No syntax tree could be produced, or it does not fit the source.
    Malformed,
    /// The fragment has more nodes than 32 bits can count.
    TooLarge,
}

impl ParseError {
    /// The error in words.
    pub fn message(&self) -> (text: String)
        ensures
            text@ == match self {
                ParseError::Unsupported(language) => "Unsupported language: "@ + language@,
                ParseError::Malformed => "Failed to parse file"@,
                ParseError::TooLarge => "Too many nodes in file"@,
            },
    {
        match self {
            ParseError::Unsupported(language) => join("Unsupported language: ", language.as_str()),
            ParseError::Malformed => "Failed to parse file".to_owned(),
            ParseError::TooLarge => "Too many nodes in file".to_owned(),
        }
    }
}

/// The fragment view of what an extractor gathered, under a fingerprint.
pub open spec fn fragment_of(c: Collected, content_hash: Seq<char>) -> FragmentView {
    FragmentView { nodes: c.nodes, edges: c.links.map_values(edge_of()), content_hash }
}

/// `r` is what a source with the given syntax tree is turned into: the
/// fragment that the language's extractor yields, under the fingerprint of
/// the source; `Malformed` if the tree does not fit the source; `TooLarge`
/// if the fragment has too many nodes.
pub open spec fn is_fragment_of<L: LanguageSupport>(
    language: &L,
    content: Seq<char>,
    tree: SyntaxNode,
    r: Result<FileGraphData, ParseError>,
) -> bool {
    let gathered = language.fragment(content, tree);
    if !tree.fits(content) {
        r matches Err(ParseError::Malformed)
    } else if gathered.nodes.len() > u32::MAX {
        r matches Err(ParseError::TooLarge)
    } else {
        r matches Ok(data) && data@ == fragment_of(gathered, fingerprint(content))
            && data@.closed()
    }
}

/// Turns a source with its syntax tree into a fragment.
pub fn build_fragment<L: LanguageSupport>(language: &L, content: &str, tree: &SyntaxNode) -> (r:
    Result<FileGraphData, ParseError>)
    ensures
        is_fragment_of(language, content@, *tree, r),
{
    if !tree.check_fits(content) {
        return Err(ParseError::Malformed);
    }
    let content_hash = compute_hash(content);
    match language.extract_graph(content, tree) {
        Ok((nodes, edges)) => {
            let data = FileGraphData { nodes, edges, content_hash };
            proof {
                let gathered = language.fragment(content@, *tree);
                assert forall|i: int| 0 <= i < data@.edges.len() implies (
                #[trigger] data@.edges[i]).source_idx < data@.nodes.len()
                    && data@.edges[i].target_idx < data@.nodes.len() by {
                    assert(gathered.links[i].source < gathered.nodes.len());
                }
            }
            Ok(data)
        },
        Err(ExtractError::TooLarge) => Err(ParseError::TooLarge),
    }
}

/// Whether a directory entry is hidden: its name starts with a dot.
pub fn is_hidden(file_name: &str) -> (b: bool)
    ensures
        b == starts_with_seq(file_name@, "."@),
{
    text_starts_with(file_name, ".")
}

/// Whether the languages to keep include the language; all are kept where
/// no choice is given.
pub open spec fn passes_filter(filter: Option<Seq<Seq<char>>>, id: Seq<char>) -> bool {
    match filter {
        Some(wanted) => wanted.contains(id),
        None => true,
    }
}

/// `r` is what parsing a source in a language gives, among the languages
/// `known`: `Unsupported` exactly where no language has the identifier;
/// `Malformed` where the parser yields no tree for the language's grammar
/// and the source; otherwise what [`build_fragment`] makes of the tree that
/// the parser yields.
pub open spec fn is_parse_of<L: LanguageSupport>(
    known: Seq<Arc<L>>,
    content: Seq<char>,
    language_id: Seq<char>,
    r: Result<FileGraphData, ParseError>,
) -> bool {
    match find_first(known, language_with_id(language_id)) {
        None => r matches Err(ParseError::Unsupported(id)) && id@ == language_id,
        Some(language) => match syntax_of(language.grammar_of(), content) {
            Some(shape) => exists|tree: SyntaxNode|
                tree.shape() == shape && is_fragment_of(&*language, content, tree, r),
            None => r matches Err(ParseError::Malformed),
        },
    }
}

/// Code parser: turns sources into fragments with the extractors of a
/// registry.
pub struct CodeParser<L: LanguageSupport> {
    registry: LanguageRegistry<L>,
}

impl<L: LanguageSupport> View for CodeParser<L> {
    type V = Seq<Arc<L>>;

    closed spec fn view(&self) -> Seq<Arc<L>> {
        self.registry@
    }
}

impl<L: LanguageSupport> CodeParser<L> {
    /// A parser over the given registry.
    pub fn new(registry: LanguageRegistry<L>) -> (parser: Self)
        ensures
            parser@ == registry@,
    {
        CodeParser { registry }
    }

    /// The language that a file with the given extension is parsed as:
    /// that of the first registered language with the extension, unless
    /// `filter_languages` is given and does not list it.
    pub fn language_for(&self, extension: &str, filter_languages: Option<&[String]>) -> (r:
        Option<String>)
        ensures
            r.deep_view() == match find_first(
                self@,
                language_with_extension(dotted(extension@)),
            ) {
                Some(l) => if passes_filter(filter_languages.deep_view(), l.id()) {
                    Some(l.id())
                } else {
                    None
                },
                None => None,
            },
    {
        let language = match self.registry.get_by_extension(extension) {
            Some(l) => l,
            None => {
                return None;
            },
        };
        let id = language.language_id();
        match filter_languages {
            Some(wanted) => {
                let mut i: usize = 0;
                while i < wanted.len()
                    invariant
                        i <= wanted.len(),
                        id@ == language.id(),
                        filter_languages == Some(wanted),
                        find_first(self@, language_with_extension(dotted(extension@))) == Some(
                            *language,
                        ),
                        forall|j: int| 0 <= j < i ==> wanted.deep_view()[j] != id@,
                    decreases wanted.len() - i,
                {
                    if same_text(wanted[i].as_str(), id) {
                        assert(wanted.deep_view()[i as int] == id@);
                        return Some(id.to_owned());
                    }
                    i = i + 1;
                }
                None
            },
            None => Some(id.to_owned()),
        }
    }

    /// Parses a source in the given language and extracts its fragment;
    /// see [`is_parse_of`].
    pub fn parse_source(&self, content: &str, language_id: &str) -> (r: Result<
        FileGraphData,
        ParseError,
    >)
        ensures
            is_parse_of(self@, content@, language_id@, r),
    {
        let language = match self.registry.get(language_id) {
            Some(l) => l,
            None => {
                return Err(ParseError::Unsupported(language_id.to_owned()));
            },
        };
        let grammar = language.grammar();
        assert(find_first(self@, language_with_id(language_id@)) == Some(*language));
        match parse_syntax(&grammar, content) {
            Some(tree) => {
                let r = build_fragment(&**language, content, &tree);
                let ghost found = find_first(self@, language_with_id::<L>(language_id@))->0;
                assert(is_fragment_of(&*found, content@, tree, r));
                r
            },
            None => Err(ParseError::Malformed),
        }
    }
}

} // verus!
