//! The extraction registry: languages by identifier, and language
//! identifiers by file extension.

use std::sync::Arc;

use vstd::prelude::*;

use crate::languages::{dotted, language_with_id, with_dot, LanguageSupport};
use crate::seqs::{find_first, first_index, lemma_first_absent, lemma_first_found};
use crate::text::same_text;

verus! {

/// The entry of the extension map is for this extension.
pub open spec fn mapped_extension(extension: Seq<char>) -> spec_fn((Seq<char>, Seq<char>)) -> bool {
    |e: (Seq<char>, Seq<char>)| e.0 == extension
}

/// The identifier of a language.
pub open spec fn id_of<L: LanguageSupport>() -> spec_fn(Arc<L>) -> Seq<char> {
    |l: Arc<L>| l.id()
}

/// The sequence with `x` in the place of the first element that satisfies
/// `p`, or at the end if there is none.
pub open spec fn upsert<T>(s: Seq<T>, p: spec_fn(T) -> bool, x: T) -> Seq<T> {
    match first_index(s, p) {
        Some(i) => s.update(i, x),
        None => s.push(x),
    }
}

/// The extension map after the first `count` of the extensions have been
/// mapped to the language identifier.
pub open spec fn with_extensions(
    map: Seq<(Seq<char>, Seq<char>)>,
    extensions: Seq<Seq<char>>,
    count: nat,
    id: Seq<char>,
) -> Seq<(Seq<char>, Seq<char>)>
    decreases count,
{
    if count == 0 {
        map
    } else {
        let ext = extensions[count - 1];
        upsert(
            with_extensions(map, extensions, (count - 1) as nat, id),
            mapped_extension(ext),
            (ext, id),
        )
    }
}

/// Mathematical value of a registry: its languages, one per identifier in
/// the order in which the identifiers were first registered, and the
/// language identifier that each extension was last registered for.
pub struct RegistryView<L: LanguageSupport> {
    pub languages: Seq<Arc<L>>,
    pub extension_map: Seq<(Seq<char>, Seq<char>)>,
}

impl<L: LanguageSupport> RegistryView<L> {
    /// The language with the given identifier.
    pub open spec fn language(self, id: Seq<char>) -> Option<Arc<L>> {
        find_first(self.languages, language_with_id(id))
    }

    /// The language that the extension, with or without its leading dot,
    /// was last registered for.
    pub open spec fn by_extension(self, extension: Seq<char>) -> Option<Arc<L>> {
        match find_first(self.extension_map, mapped_extension(dotted(extension))) {
            Some(e) => self.language(e.1),
            None => None,
        }
    }

    /// The registry after a language has been registered: it takes the
    /// place of a language with the same identifier, and each of its
    /// extensions is mapped to it.
    pub open spec fn registered(self, language: Arc<L>) -> RegistryView<L> {
        RegistryView {
            languages: upsert(self.languages, language_with_id(language.id()), language),
            extension_map: with_extensions(
                self.extension_map,
                language.extensions(),
                language.extensions().len(),
                language.id(),
            ),
        }
    }
}

/// Registry of language support.
pub struct LanguageRegistry<L: LanguageSupport> {
    languages: Vec<Arc<L>>,
    extension_map: Vec<(String, String)>,
}

impl<L: LanguageSupport> View for LanguageRegistry<L> {
    type V = RegistryView<L>;

    closed spec fn view(&self) -> RegistryView<L> {
        RegistryView {
            languages: self.languages@,
            extension_map: self.extension_map.deep_view(),
        }
    }
}

impl<L: LanguageSupport> LanguageRegistry<L> {
    /// A registry without languages.
    pub fn empty() -> (r: Self)
        ensures
            r@.languages.len() == 0,
            r@.extension_map.len() == 0,
    {
        LanguageRegistry { languages: Vec::new(), extension_map: Vec::new() }
    }

    fn language_position(&self, language_id: &str) -> (r: Option<usize>)
        ensures
            match r {
                Some(i) => i < self@.languages.len() && first_index(
                    self@.languages,
                    language_with_id(language_id@),
                ) == Some(i as int),
                None => first_index(self@.languages, language_with_id::<L>(language_id@))
                    is None,
            },
    {
        let ghost p = language_with_id::<L>(language_id@);
        let mut i: usize = 0;
        while i < self.languages.len()
            invariant
                i <= self.languages.len(),
                p == language_with_id::<L>(language_id@),
                forall|j: int| 0 <= j < i ==> !p(#[trigger] self@.languages[j]),
            decreases self.languages.len() - i,
        {
            if same_text(self.languages[i].language_id(), language_id) {
                proof {
                    lemma_first_found(self@.languages, p, i as int);
                }
                return Some(i);
            }
            i = i + 1;
        }
        proof {
            lemma_first_absent(self@.languages, p);
        }
        None
    }

    fn extension_position(&self, extension: &str) -> (r: Option<usize>)
        ensures
            match r {
                Some(i) => i < self@.extension_map.len() && first_index(
                    self@.extension_map,
                    mapped_extension(extension@),
                ) == Some(i as int),
                None => first_index(self@.extension_map, mapped_extension(extension@)) is None,
            },
    {
        let ghost p = mapped_extension(extension@);
        let mut i: usize = 0;
        while i < self.extension_map.len()
            invariant
                i <= self.extension_map.len(),
                p == mapped_extension(extension@),
                forall|j: int| 0 <= j < i ==> !p(#[trigger] self@.extension_map[j]),
            decreases self.extension_map.len() - i,
        {
            if same_text(self.extension_map[i].0.as_str(), extension) {
                proof {
                    lemma_first_found(self@.extension_map, p, i as int);
                }
                return Some(i);
            }
            i = i + 1;
        }
        proof {
            lemma_first_absent(self@.extension_map, p);
        }
        None
    }

    /// Registers a language under its identifier and its extensions.
    pub fn register(&mut self, language: Arc<L>)
        ensures
            final(self)@ == old(self)@.registered(language),
    {
        let ghost before = self@;
        let id = language.language_id().to_owned();
        let extensions = language.file_extensions();
        let ghost exts = language.extensions();
        let mut i: usize = 0;
        while i < extensions.len()
            invariant
                i <= extensions.len(),
                extensions.deep_view() == exts,
                id@ == language.id(),
                self.languages@ == before.languages,
                self@.extension_map == with_extensions(
                    before.extension_map,
                    exts,
                    i as nat,
                    language.id(),
                ),
            decreases extensions.len() - i,
        {
            let ghost prior = self.extension_map.deep_view();
            let entry = (extensions[i].to_owned(), id.clone());
            match self.extension_position(extensions[i]) {
                Some(k) => {
                    self.extension_map.set(k, entry);
                    assert(self.extension_map.deep_view() =~= prior.update(
                        k as int,
                        (exts[i as int], language.id()),
                    ));
                },
                None => {
                    self.extension_map.push(entry);
                    assert(self.extension_map.deep_view() =~= prior.push(
                        (exts[i as int], language.id()),
                    ));
                },
            }
            i = i + 1;
        }
        match self.language_position(id.as_str()) {
            Some(k) => {
                self.languages.set(k, language);
            },
            None => {
                self.languages.push(language);
            },
        }
    }

    /// The language with the given identifier.
    pub fn get(&self, language_id: &str) -> (r: Option<&Arc<L>>)
        ensures
            match r {
                Some(l) => self@.language(language_id@) == Some(*l),
                None => self@.language(language_id@) is None,
            },
    {
        match self.language_position(language_id) {
            Some(i) => Some(&self.languages[i]),
            None => None,
        }
    }

    /// The language that a file extension, with or without its leading
    /// dot, is registered for.
    pub fn get_by_extension(&self, extension: &str) -> (r: Option<&Arc<L>>)
        ensures
            match r {
                Some(l) => self@.by_extension(extension@) == Some(*l),
                None => self@.by_extension(extension@) is None,
            },
    {
        let ext = with_dot(extension);
        match self.extension_position(ext.as_str()) {
            Some(i) => self.get(self.extension_map[i].1.as_str()),
            None => None,
        }
    }

    /// The identifiers of the registered languages.
    pub fn language_ids(&self) -> (ids: Vec<&str>)
        ensures
            ids.deep_view() == self@.languages.map_values(id_of()),
    {
        let mut ids: Vec<&str> = Vec::new();
        let mut i: usize = 0;
        while i < self.languages.len()
            invariant
                i <= self.languages.len(),
                ids.deep_view() == self@.languages.take(i as int).map_values(id_of()),
            decreases self.languages.len() - i,
        {
            let ghost prior = ids.deep_view();
            ids.push(self.languages[i].language_id());
            assert(ids.deep_view() =~= prior.push(self@.languages[i as int].id()));
            assert(self@.languages.take(i + 1).map_values(id_of()) =~= prior.push(
                self@.languages[i as int].id(),
            ));
            i = i + 1;
        }
        assert(self@.languages.take(i as int) =~= self@.languages);
        ids
    }

    /// The registered languages.
    pub fn list_languages(&self) -> (r: Vec<&Arc<L>>)
        ensures
            r@.len() == self@.languages.len(),
            forall|i: int| 0 <= i < r@.len() ==> *(#[trigger] r@[i]) == self@.languages[i],
    {
        let mut out: Vec<&Arc<L>> = Vec::new();
        let mut i: usize = 0;
        while i < self.languages.len()
            invariant
                i <= self.languages.len(),
                out@.len() == i,
                forall|j: int| 0 <= j < i ==> *(#[trigger] out@[j]) == self@.languages[j],
            decreases self.languages.len() - i,
        {
            out.push(&self.languages[i]);
            i = i + 1;
        }
        out
    }

    /// Whether a file extension is registered.
    pub fn is_supported(&self, extension: &str) -> (b: bool)
        ensures
            b == self@.by_extension(extension@).is_some(),
    {
        self.get_by_extension(extension).is_some()
    }
}

} // verus!
