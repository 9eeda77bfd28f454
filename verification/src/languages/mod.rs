//! Language support: the syntax tree, the extractor capability and the
//! extractors for the supported languages.

pub mod collect;
pub mod go;
pub mod go_lemmas;
pub mod java;
pub mod java_lemmas;
pub mod parse;
pub mod syntax;

use std::sync::Arc;

use vstd::prelude::*;

use crate::languages::collect::{edge_of, Collected, ExtractError};
use crate::languages::syntax::SyntaxNode;
use crate::seqs::{find_first, lemma_first_absent, lemma_first_found};
use crate::storage::models::{EdgeData, NodeData};
use crate::text::{join, same_text, starts_with_seq, text_starts_with};

verus! {

/// `r` is the outcome of extraction for the gathered fragment `c`: its
/// nodes in order and its links as edges, or an error if it has more nodes
/// than 32 bits can count.
pub open spec fn is_outcome(c: Collected, r: Result<(Vec<NodeData>, Vec<EdgeData>), ExtractError>)
    -> bool {
    match r {
        Ok((nodes, edges)) => {
            &&& nodes.deep_view() == c.nodes
            &&& edges.deep_view() == c.links.map_values(edge_of())
            &&& c.nodes.len() <= u32::MAX
            &&& c.closed()
        },
        Err(ExtractError::TooLarge) => c.nodes.len() > u32::MAX,
    }
}

/// Support for one language: its identifier, the extensions of its files,
/// its grammar, and the extraction of a fragment from a syntax tree.
pub trait LanguageSupport: Send + Sync {
    /// The language identifier.
    spec fn id(&self) -> Seq<char>;

    /// The file extensions, each with its leading dot.
    spec fn extensions(&self) -> Seq<Seq<char>>;

    /// The fragment that a syntax tree of a source yields.
    spec fn fragment(&self, source: Seq<char>, tree: SyntaxNode) -> Collected;

    /// The grammar that sources in the language are parsed with.
    spec fn grammar_of(&self) -> tree_sitter::Language;

    /// The language identifier (e.g. `java`, `go`).
    fn language_id(&self) -> (r: &str)
        ensures
            r@ == self.id(),
    ;

    /// The supported file extensions (e.g. `.java`, `.go`).
    fn file_extensions(&self) -> (r: &[&str])
        ensures
            r.deep_view() == self.extensions(),
    ;

    /// The tree-sitter grammar.
    fn grammar(&self) -> (r: tree_sitter::Language)
        ensures
            r == self.grammar_of(),
    ;

    /// Extracts the fragment of a source from its syntax tree. The same
    /// source and tree always give the same fragment.
    fn extract_graph(&self, source: &str, tree: &SyntaxNode) -> (r: Result<
        (Vec<NodeData>, Vec<EdgeData>),
        ExtractError,
    >)
        requires
            tree.fits(source@),
        ensures
            is_outcome(self.fragment(source@, *tree), r),
    ;
}

/// The language has this identifier.
pub open spec fn language_with_id<L: LanguageSupport>(id: Seq<char>) -> spec_fn(Arc<L>) -> bool {
    |l: Arc<L>| l.id() == id
}

/// The language has this file extension.
pub open spec fn language_with_extension<L: LanguageSupport>(extension: Seq<char>) -> spec_fn(
    Arc<L>,
) -> bool {
    |l: Arc<L>| l.extensions().contains(extension)
}

/// The extension with a leading dot: as it is if it starts with a dot,
/// behind a dot otherwise.
pub open spec fn dotted(extension: Seq<char>) -> Seq<char> {
    if starts_with_seq(extension, "."@) {
        extension
    } else {
        "."@ + extension
    }
}

/// The extension with a leading dot.
pub fn with_dot(extension: &str) -> (r: String)
    ensures
        r@ == dotted(extension@),
{
    if text_starts_with(extension, ".") {
        extension.to_owned()
    } else {
        join(".", extension)
    }
}

/// Whether one of the extensions is `wanted`.
pub fn has_extension(extensions: &[&str], wanted: &str) -> (b: bool)
    ensures
        b == extensions.deep_view().contains(wanted@),
{
    let mut i: usize = 0;
    while i < extensions.len()
        invariant
            i <= extensions.len(),
            forall|j: int| 0 <= j < i ==> extensions.deep_view()[j] != wanted@,
        decreases extensions.len() - i,
    {
        if same_text(extensions[i], wanted) {
            assert(extensions.deep_view()[i as int] == wanted@);
            return true;
        }
        i = i + 1;
    }
    false
}

/// One of the languages that are built in.
pub enum BuiltinLanguage {
    Java(java::JavaLanguage),
    Go(go::GoLanguage),
}

impl LanguageSupport for BuiltinLanguage {
    open spec fn id(&self) -> Seq<char> {
        match self {
            BuiltinLanguage::Java(l) => l.id(),
            BuiltinLanguage::Go(l) => l.id(),
        }
    }

    open spec fn extensions(&self) -> Seq<Seq<char>> {
        match self {
            BuiltinLanguage::Java(l) => l.extensions(),
            BuiltinLanguage::Go(l) => l.extensions(),
        }
    }

    open spec fn fragment(&self, source: Seq<char>, tree: SyntaxNode) -> Collected {
        match self {
            BuiltinLanguage::Java(l) => l.fragment(source, tree),
            BuiltinLanguage::Go(l) => l.fragment(source, tree),
        }
    }

    open spec fn grammar_of(&self) -> tree_sitter::Language {
        match self {
            BuiltinLanguage::Java(l) => l.grammar_of(),
            BuiltinLanguage::Go(l) => l.grammar_of(),
        }
    }

    fn language_id(&self) -> (r: &str) {
        match self {
            BuiltinLanguage::Java(l) => l.language_id(),
            BuiltinLanguage::Go(l) => l.language_id(),
        }
    }

    fn file_extensions(&self) -> (r: &[&str]) {
        match self {
            BuiltinLanguage::Java(l) => l.file_extensions(),
            BuiltinLanguage::Go(l) => l.file_extensions(),
        }
    }

    fn grammar(&self) -> (r: tree_sitter::Language) {
        match self {
            BuiltinLanguage::Java(l) => l.grammar(),
            BuiltinLanguage::Go(l) => l.grammar(),
        }
    }

    fn extract_graph(&self, source: &str, tree: &SyntaxNode) -> (r: Result<
        (Vec<NodeData>, Vec<EdgeData>),
        ExtractError,
    >) {
        match self {
            BuiltinLanguage::Java(l) => l.extract_graph(source, tree),
            BuiltinLanguage::Go(l) => l.extract_graph(source, tree),
        }
    }
}

/// The supported languages, in the order of their registration.
pub struct LanguageRegistry<L: LanguageSupport> {
    languages: Vec<Arc<L>>,
}

impl<L: LanguageSupport> View for LanguageRegistry<L> {
    type V = Seq<Arc<L>>;

    closed spec fn view(&self) -> Seq<Arc<L>> {
        self.languages@
    }
}

impl LanguageRegistry<BuiltinLanguage> {
    /// A registry with the built-in languages: Java, then Go.
    pub fn new() -> (r: Self)
        ensures
            r@.len() == 2,
            *r@[0] == BuiltinLanguage::Java(java::JavaLanguage),
            *r@[1] == BuiltinLanguage::Go(go::GoLanguage),
    {
        let mut registry = LanguageRegistry::empty();
        registry.register(Arc::new(BuiltinLanguage::Java(java::JavaLanguage::new())));
        registry.register(Arc::new(BuiltinLanguage::Go(go::GoLanguage::new())));
        registry
    }
}

impl<L: LanguageSupport> LanguageRegistry<L> {
    /// A registry without languages.
    pub fn empty() -> (r: Self)
        ensures
            r@.len() == 0,
    {
        LanguageRegistry { languages: Vec::new() }
    }

    /// Registers a language after those registered so far.
    pub fn register(&mut self, language: Arc<L>)
        ensures
            final(self)@ == old(self)@.push(language),
    {
        self.languages.push(language);
    }

    /// The first language with the given identifier.
    pub fn get(&self, language_id: &str) -> (r: Option<&Arc<L>>)
        ensures
            match r {
                Some(l) => find_first(self@, language_with_id(language_id@)) == Some(*l),
                None => find_first(self@, language_with_id::<L>(language_id@)) is None,
            },
    {
        let ghost p = language_with_id::<L>(language_id@);
        let mut i: usize = 0;
        while i < self.languages.len()
            invariant
                i <= self.languages.len(),
                p == language_with_id::<L>(language_id@),
                forall|j: int| 0 <= j < i ==> !p(#[trigger] self@[j]),
            decreases self.languages.len() - i,
        {
            if same_text(self.languages[i].language_id(), language_id) {
                proof {
                    lemma_first_found(self@, p, i as int);
                }
                return Some(&self.languages[i]);
            }
            i = i + 1;
        }
        proof {
            lemma_first_absent(self@, p);
        }
        None
    }

    /// The first language with the given file extension, with or without
    /// its leading dot.
    pub fn get_by_extension(&self, extension: &str) -> (r: Option<&Arc<L>>)
        ensures
            match r {
                Some(l) => find_first(self@, language_with_extension(dotted(extension@))) == Some(
                    *l,
                ),
                None => find_first(self@, language_with_extension::<L>(dotted(extension@)))
                    is None,
            },
    {
        let ext = with_dot(extension);
        let ghost p = language_with_extension::<L>(dotted(extension@));
        let mut i: usize = 0;
        while i < self.languages.len()
            invariant
                i <= self.languages.len(),
                ext@ == dotted(extension@),
                p == language_with_extension::<L>(dotted(extension@)),
                forall|j: int| 0 <= j < i ==> !p(#[trigger] self@[j]),
            decreases self.languages.len() - i,
        {
            if has_extension(self.languages[i].file_extensions(), ext.as_str()) {
                proof {
                    lemma_first_found(self@, p, i as int);
                }
                return Some(&self.languages[i]);
            }
            i = i + 1;
        }
        proof {
            lemma_first_absent(self@, p);
        }
        None
    }

    /// All registered languages, in the order of their registration.
    pub fn list_languages(&self) -> (r: &[Arc<L>])
        ensures
            r@ == self@,
    {
        self.languages.as_slice()
    }
}

impl Default for LanguageRegistry<BuiltinLanguage> {
    /// A registry with the built-in languages: Java, then Go.
    fn default() -> (r: Self)
        ensures
            r@.len() == 2,
            *r@[0] == BuiltinLanguage::Java(java::JavaLanguage),
            *r@[1] == BuiltinLanguage::Go(go::GoLanguage),
    {
        LanguageRegistry::new()
    }
}

} // verus!
