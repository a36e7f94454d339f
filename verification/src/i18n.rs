//! Translation manager: holds every language in memory and answers
//! translation queries with deterministic fallback to the default language
//! and, as a last resort, to a synthesized `category.key` placeholder.

use vstd::prelude::*;

use crate::dict::Dict;
use crate::strutil::placeholder;
use crate::strutil::placeholder_view;
use crate::DataView;
use crate::LangView;
use crate::Language;
use crate::LanguageData;
use crate::data_wf;
use crate::Error;
use crate::lang_wf;
use crate::lookup_spec;
use crate::parsers::json_language;
use crate::parsers::json_language_bytes;
use crate::strutil::is_link_payload;
use crate::strutil::is_link_payload_bytes;
use crate::strutil::link_target;
use crate::strutil::link_target_bytes;
use crate::strutil::strip_link_prefix;
use crate::strutil::strip_link_prefix_bytes;
use crate::strutil::utf8_str;

verus! {

/// The language `name` resolves to: its own data, or — through exactly one
/// link hop — the data of the language it links to. A link to a missing
/// language or to another link resolves to nothing.
pub open spec fn resolve_spec(langs: Map<Seq<char>, LangView>, name: Seq<char>) -> Option<
    DataView,
> {
    if langs.dom().contains(name) {
        match langs[name] {
            LangView::Data(d) => Some(d),
            LangView::Link(target) => if langs.dom().contains(target) && langs[target] is Data {
                Some(langs[target]->Data_0)
            } else {
                None
            },
        }
    } else {
        None
    }
}

/// What `translate_default` returns: the default language's value, or the
/// `category.key` placeholder.
pub open spec fn translate_default_spec(
    default: DataView,
    category: Seq<char>,
    key: Seq<char>,
) -> Seq<char> {
    match lookup_spec(default, category, key) {
        Some(v) => v,
        None => placeholder_view(category, key),
    }
}

/// What `translate` returns: the resolved language's value at
/// (category, key) when both exist, otherwise the default language's value,
/// otherwise the placeholder.
pub open spec fn translate_spec(
    langs: Map<Seq<char>, LangView>,
    default: DataView,
    language: Seq<char>,
    category: Seq<char>,
    key: Seq<char>,
) -> Seq<char> {
    match resolve_spec(langs, language) {
        Some(d) => match lookup_spec(d, category, key) {
            Some(v) => v,
            None => translate_default_spec(default, category, key),
        },
        None => translate_default_spec(default, category, key),
    }
}

/// Translation manager, used to load and manage all languages in the
/// memory.
#[derive(Debug, Clone)]
pub struct I18n {
    /// All languages managed by this instance.
    pub languages: Dict<Language>,
    /// The default language. Used as fallback when a language, category or
    /// key is not found. Not itself stored under a name in `languages`.
    pub default: LanguageData,
}

impl I18n {
    /// Well-formed: the language map, every language in it, and the default
    /// language's data all have pairwise-distinct keys.
    pub open spec fn wf(&self) -> bool {
        &&& self.languages.wf()
        &&& forall|i: int|
            0 <= i < self.languages.entries().len() ==> lang_wf(
                #[trigger] self.languages.entries()[i].1,
            )
        &&& data_wf(self.default)
    }

    /// Creates a new instance of the manager, providing the default
    /// language and the languages that will be managed.
    pub fn new_with_default_and_languages(
        default: LanguageData,
        languages: Dict<Language>,
    ) -> (r: Self)
        ensures
            r.languages == languages,
            r.default == default,
    {
        I18n { languages, default }
    }

    /// Creates a new instance of the manager, providing the default
    /// language.
    pub fn new_with_default(default: LanguageData) -> (r: Self)
        ensures
            r.default == default,
            r.languages.wf(),
            r.languages@ =~= Map::<Seq<char>, LangView>::empty(),
            r.languages.entries().len() == 0,
    {
        I18n::new_with_default_and_languages(default, Dict::new())
    }

    /// Creates a new instance of the manager, providing the languages that
    /// will be managed.
    pub fn new_with_languages(languages: Dict<Language>) -> (r: Self)
        ensures
            r.languages == languages,
            data_wf(r.default),
            r.default@ =~= Map::<Seq<char>, crate::CategoryView>::empty(),
            r.default.entries().len() == 0,
    {
        I18n::new_with_default_and_languages(Dict::new(), languages)
    }

    /// Creates a new instance of the manager.
    pub fn new() -> (r: Self)
        ensures
            r.wf(),
            r.languages@ =~= Map::<Seq<char>, LangView>::empty(),
            r.languages.entries().len() == 0,
            r.default@ =~= Map::<Seq<char>, crate::CategoryView>::empty(),
            r.default.entries().len() == 0,
    {
        I18n::new_with_default_and_languages(Dict::new(), Dict::new())
    }

    /// Gets a language, resolving a link by exactly one hop.
    ///
    /// Returns `None` if the language doesn't exist, if the link target
    /// doesn't exist, or if the link points to another link.
    pub fn get_language(&self, language: &str) -> (r: Option<&LanguageData>)
        requires
            self.wf(),
        ensures
            r is Some <==> resolve_spec(self.languages@, language@) is Some,
            r matches Some(d) ==> Some(d@) == resolve_spec(self.languages@, language@) && data_wf(
                *d,
            ),
    {
        let name = language.to_owned();
        match self.languages.get(&name) {
            None => None,
            Some(lang) => {
                proof {
                    let i = choose|i: int|
                        0 <= i < self.languages.entries().len() && self.languages.entries()[i].0@
                            == name@ && *lang == self.languages.entries()[i].1;
                    assert(lang_wf(*lang));
                }
                match lang {
                    Language::Data(data) => Some(data),
                    Language::Link(target) => match self.languages.get(target) {
                        Some(linked) => {
                            proof {
                                let i = choose|i: int|
                                    0 <= i < self.languages.entries().len()
                                        && self.languages.entries()[i].0@ == target@ && *linked
                                        == self.languages.entries()[i].1;
                                assert(lang_wf(*linked));
                            }
                            match linked {
                                Language::Link(_) => None,
                                Language::Data(data) => Some(data),
                            }
                        },
                        None => None,
                    },
                }
            },
        }
    }

    /// Gets the translation for category and key using the default
    /// language.
    pub fn translate_default_option(&self, category: &str, key: &str) -> (r: Option<String>)
        requires
            self.wf(),
        ensures
            r is Some <==> lookup_spec(self.default@, category@, key@) is Some,
            r matches Some(v) ==> Some(v@) == lookup_spec(self.default@, category@, key@),
    {
        lookup(&self.default, category, key)
    }

    /// Gets the translation for category and key using the default
    /// language, falling back to the format `category.key`.
    pub fn translate_default(&self, category: &str, key: &str) -> (r: String)
        requires
            self.wf(),
        ensures
            r@ == translate_default_spec(self.default@, category@, key@),
    {
        match self.translate_default_option(category, key) {
            Some(v) => v,
            None => placeholder(category, key),
        }
    }

    /// Gets the translation for category and key using the specified
    /// language, resolving a link by one hop.
    pub fn translate_option(&self, language: &str, category: &str, key: &str) -> (r: Option<
        String,
    >)
        requires
            self.wf(),
        ensures
            r is Some <==> (resolve_spec(self.languages@, language@) matches Some(d)
                && lookup_spec(d, category@, key@) is Some),
            r matches Some(v) ==> Some(v@) == lookup_spec(
                resolve_spec(self.languages@, language@)->0,
                category@,
                key@,
            ),
    {
        match self.get_language(language) {
            Some(data) => lookup(data, category, key),
            None => None,
        }
    }

    /// Gets the translation for category and key using the specified
    /// language, falling back to the default language.
    pub fn translate(&self, language: &str, category: &str, key: &str) -> (r: String)
        requires
            self.wf(),
        ensures
            r@ == translate_spec(self.languages@, self.default@, language@, category@, key@),
    {
        match self.translate_option(language, category, key) {
            Some(v) => v,
            None => self.translate_default(category, key),
        }
    }
}

/// Every language after deduplication against default data `dd`: owned
/// data is deduplicated, links are kept as they are.
pub open spec fn dedup_all_spec(langs: Map<Seq<char>, LangView>, dd: DataView) -> Map<
    Seq<char>,
    LangView,
> {
    Map::new(
        |n: Seq<char>| langs.dom().contains(n),
        |n: Seq<char>|
            match langs[n] {
                LangView::Data(d) => LangView::Data(crate::dedup_data(dd, d)),
                LangView::Link(t) => LangView::Link(t),
            },
    )
}

/// The entries of `part` that survive link cleanup against the full map
/// `full`: data entries survive, and a link survives only when its target
/// is a data entry of `full`.
pub open spec fn cleanup_partial(
    part: Map<Seq<char>, LangView>,
    full: Map<Seq<char>, LangView>,
) -> Map<Seq<char>, LangView> {
    Map::new(
        |n: Seq<char>|
            part.dom().contains(n) && (part[n] is Data || (full.dom().contains(part[n]->Link_0)
                && full[part[n]->Link_0] is Data)),
        |n: Seq<char>| part[n],
    )
}

/// The language map after link cleanup: every link that points to another
/// link or to a missing language is removed.
pub open spec fn cleanup_spec(langs: Map<Seq<char>, LangView>) -> Map<Seq<char>, LangView> {
    cleanup_partial(langs, langs)
}

/// Every link that survives link cleanup resolves in one hop: its target
/// is a literal language that also survives.
pub proof fn lemma_cleaned_links_resolve(langs: Map<Seq<char>, LangView>, name: Seq<char>)
    requires
        cleanup_spec(langs).dom().contains(name),
        cleanup_spec(langs)[name] is Link,
    ensures
        resolve_spec(cleanup_spec(langs), name) is Some,
{
}

/// After inserting a well-formed language, every stored language is still
/// well-formed.
proof fn lemma_insert_keeps_lang_wf(
    s: Seq<(String, Language)>,
    t: Seq<(String, Language)>,
    p: (String, Language),
)
    requires
        forall|j: int| 0 <= j < s.len() ==> lang_wf(#[trigger] s[j].1),
        lang_wf(p.1),
        t == s.push(p) || exists|i: int| 0 <= i < s.len() && t == s.update(i, p),
    ensures
        forall|j: int| 0 <= j < t.len() ==> lang_wf(#[trigger] t[j].1),
{
    if t == s.push(p) {
        assert forall|j: int| 0 <= j < t.len() implies lang_wf(#[trigger] t[j].1) by {
            if j < s.len() {
                assert(t[j] == s[j]);
            }
        }
    } else {
        let i = choose|i: int| 0 <= i < s.len() && t == s.update(i, p);
        assert forall|j: int| 0 <= j < t.len() implies lang_wf(#[trigger] t[j].1) by {
            if j != i {
                assert(t[j] == s[j]);
            }
        }
    }
}

impl I18n {
    /// Creates a new instance of the manager using the builder pattern.
    pub fn builder() -> (r: crate::builders::I18nBuilder)
        ensures
            r.wf(),
            r.languages@ =~= Map::<Seq<char>, DataView>::empty(),
            r.languages.entries().len() == 0,
            r.links@ =~= Map::<Seq<char>, Seq<char>>::empty(),
            r.links.entries().len() == 0,
            r.default_language@ =~= Seq::<char>::empty(),
    {
        proof {
            reveal_strlit("");
        }
        crate::builders::I18nBuilder::new("")
    }

    /// Removes all the translations that are equal to the default
    /// translation.
    pub fn deduplicate(&self, language: &mut LanguageData)
        requires
            self.wf(),
            data_wf(*old(language)),
        ensures
            data_wf(*final(language)),
            final(language)@ =~= crate::dedup_data(self.default@, old(language)@),
    {
        crate::deduplicate_language(&self.default, language);
    }

    /// Removes, in every language managed by this instance, all the
    /// translations that are equal to the default translation. Links are
    /// left as they are.
    pub fn deduplicate_all(&mut self)
        requires
            old(self).wf(),
        ensures
            final(self).wf(),
            final(self).default == old(self).default,
            final(self).languages@ =~= dedup_all_spec(old(self).languages@, old(self).default@),
    {
        let out = dedup_all_exec(&self.default, &self.languages);
        self.languages = out;
    }

    /// Removes all the links that point to another link or to a language
    /// that doesn't exist.
    pub fn cleanup_links(&mut self)
        requires
            old(self).wf(),
        ensures
            final(self).wf(),
            final(self).default == old(self).default,
            final(self).languages@ =~= cleanup_spec(old(self).languages@),
    {
        let out = cleanup_links_exec(&self.languages);
        self.languages = out;
    }

    /// Sets the default language from the languages already loaded,
    /// returning `true` if the language was found, owned data, and set as
    /// default. A link cannot become the default.
    ///
    /// With `deduplicate` the language is removed from the language map
    /// instead of cloned; a link of that name is removed without becoming
    /// the default.
    pub fn set_default(&mut self, language: &str, deduplicate: bool) -> (r: bool)
        requires
            old(self).wf(),
        ensures
            final(self).wf(),
            r == (old(self).languages@.dom().contains(language@) && old(self).languages@[language@] is Data),
            r ==> final(self).default@ == old(self).languages@[language@]->Data_0,
            !r ==> final(self).default == old(self).default,
            deduplicate && old(self).languages@.dom().contains(language@) ==> final(self).languages@ =~= old(self).languages@.remove(language@),
            !(deduplicate && old(self).languages@.dom().contains(language@)) ==> final(self).languages == old(self).languages,
    {
        let name = language.to_owned();
        if deduplicate {
            proof {
                self.languages.lemma_props();
            }
            match self.languages.remove(&name) {
                Some(removed) => {
                    proof {
                        let i = choose|i: int|
                            0 <= i < old(self).languages.entries().len() && old(self).languages.entries()[i].0@ == name@ && removed == old(self).languages.entries()[i].1 && self.languages.entries() == old(self).languages.entries().remove(i);
                        assert(lang_wf(removed));
                        assert forall|j: int| 0 <= j < self.languages.entries().len() implies
                            lang_wf(#[trigger] self.languages.entries()[j].1) by {
                            if j < i {
                                assert(self.languages.entries()[j] == old(self).languages.entries()[j]);
                            } else {
                                assert(self.languages.entries()[j] == old(self).languages.entries()[j + 1]);
                            }
                        }
                    }
                    match removed {
                        Language::Data(data) => {
                            self.default = data;
                            true
                        },
                        Language::Link(_) => false,
                    }
                },
                None => false,
            }
        } else {
            let copied = match self.languages.get(&name) {
                Some(found) => {
                    proof {
                        let i = choose|i: int|
                            0 <= i < self.languages.entries().len()
                                && self.languages.entries()[i].0@ == name@ && *found
                                == self.languages.entries()[i].1;
                        assert(lang_wf(*found));
                    }
                    match found {
                        Language::Data(data) => Some(crate::clone_data(data)),
                        Language::Link(_) => None,
                    }
                },
                None => None,
            };
            match copied {
                Some(data) => {
                    self.default = data;
                    true
                },
                None => false,
            }
        }
    }

    /// Loads a language or a link from a string of the catalog's JSON
    /// format. A payload that starts with the `_link:` sentinel records a
    /// link to the rest of the payload; any other payload is handed to the
    /// parser.
    ///
    /// If `check_link` is `true` and the payload is a link, the link is
    /// rejected with [`Error::LanguageNotFound`] unless its target is
    /// already present. If `deduplicate` is `true`, parsed data is
    /// deduplicated against the default language before it is stored.
    pub fn from_str(&mut self, language: &str, data: &str, check_link: bool, deduplicate: bool) -> (r:
        Result<(), Error>)
        requires
            old(self).wf(),
        ensures
            final(self).wf(),
            final(self).default == old(self).default,
            is_link_payload(data@) && check_link && !old(self).languages@.dom().contains(
                link_target(data@),
            ) ==> (r matches Err(e) && e matches Error::LanguageNotFound(n) && n@ == link_target(
                data@,
            )) && final(self).languages == old(self).languages,
            is_link_payload(data@) && (!check_link || old(self).languages@.dom().contains(
                link_target(data@),
            )) ==> r is Ok && final(self).languages@ =~= old(self).languages@.insert(
                language@,
                LangView::Link(link_target(data@)),
            ),
            !is_link_payload(data@) && json_language(data@) is Some ==> r is Ok && final(self).languages@ =~= old(self).languages@.insert(
                language@,
                LangView::Data(
                    if deduplicate {
                        crate::dedup_data(old(self).default@, json_language(data@)->0)
                    } else {
                        json_language(data@)->0
                    },
                ),
            ),
            !is_link_payload(data@) && json_language(data@) is None ==> (r matches Err(e)
                && e is Json) && final(self).languages == old(self).languages,
    {
        match strip_link_prefix(data) {
            Some(target) => {
                if check_link && !self.languages.contains_key(&target) {
                    return Err(Error::LanguageNotFound(target));
                }
                let key = language.to_owned();
                let inserted = Language::Link(target);
                let ghost pair = (key, inserted);
                let ghost entries_before = self.languages.entries();
                self.languages.insert(key, inserted);
                proof {
                    lemma_insert_keeps_lang_wf(entries_before, self.languages.entries(), pair);
                }
                Ok(())
            },
            None => {
                let parsed = match crate::parsers::parse_from_str(data) {
                    Ok(d) => d,
                    Err(e) => {
                        return Err(e);
                    },
                };
                let value = if deduplicate {
                    crate::dedup_data_exec(&self.default, &parsed)
                } else {
                    parsed
                };
                let key = language.to_owned();
                let inserted = Language::Data(value);
                let ghost pair = (key, inserted);
                let ghost entries_before = self.languages.entries();
                self.languages.insert(key, inserted);
                proof {
                    lemma_insert_keeps_lang_wf(entries_before, self.languages.entries(), pair);
                }
                Ok(())
            },
        }
    }

    /// Loads a language or a link from a byte slice of the catalog's JSON
    /// format. A payload whose first six bytes are the `_link:` sentinel
    /// records a link to the UTF-8 decoding of the remaining bytes; any
    /// other payload — including one shorter than the sentinel — is handed
    /// to the parser.
    pub fn from_slice(
        &mut self,
        language: &str,
        data: &[u8],
        check_link: bool,
        deduplicate: bool,
    ) -> (r: Result<(), Error>)
        requires
            old(self).wf(),
        ensures
            final(self).wf(),
            final(self).default == old(self).default,
            is_link_payload_bytes(data@) && !vstd::utf8::valid_utf8(link_target_bytes(data@)) ==> (
            r matches Err(e) && e is Utf8) && final(self).languages == old(self).languages,
            is_link_payload_bytes(data@) && vstd::utf8::valid_utf8(link_target_bytes(data@))
                && check_link && !old(self).languages@.dom().contains(
                vstd::utf8::decode_utf8(link_target_bytes(data@)),
            ) ==> (r matches Err(e) && e matches Error::LanguageNotFound(n) && n@
                == vstd::utf8::decode_utf8(link_target_bytes(data@))) && final(self).languages
                == old(self).languages,
            is_link_payload_bytes(data@) && vstd::utf8::valid_utf8(link_target_bytes(data@)) && (
            !check_link || old(self).languages@.dom().contains(
                vstd::utf8::decode_utf8(link_target_bytes(data@)),
            )) ==> r is Ok && final(self).languages@ =~= old(self).languages@.insert(
                language@,
                LangView::Link(vstd::utf8::decode_utf8(link_target_bytes(data@))),
            ),
            !is_link_payload_bytes(data@) && json_language_bytes(data@) is Some ==> r is Ok
                && final(self).languages@ =~= old(self).languages@.insert(
                language@,
                LangView::Data(
                    if deduplicate {
                        crate::dedup_data(old(self).default@, json_language_bytes(data@)->0)
                    } else {
                        json_language_bytes(data@)->0
                    },
                ),
            ),
            !is_link_payload_bytes(data@) && json_language_bytes(data@) is None ==> (r matches Err(
                e,
            ) && e is Json) && final(self).languages == old(self).languages,
    {
        match strip_link_prefix_bytes(data) {
            Some(tail) => {
                let target = match utf8_str(tail) {
                    Some(t) => {
                        proof {
                            vstd::utf8::encode_utf8_decode_utf8(t@);
                        }
                        t.to_owned()
                    },
                    None => {
                        return Err(Error::Utf8);
                    },
                };
                if check_link && !self.languages.contains_key(&target) {
                    return Err(Error::LanguageNotFound(target));
                }
                let key = language.to_owned();
                let inserted = Language::Link(target);
                let ghost pair = (key, inserted);
                let ghost entries_before = self.languages.entries();
                self.languages.insert(key, inserted);
                proof {
                    lemma_insert_keeps_lang_wf(entries_before, self.languages.entries(), pair);
                }
                Ok(())
            },
            None => {
                let parsed = match crate::parsers::parse_from_slice(data) {
                    Ok(d) => d,
                    Err(e) => {
                        return Err(e);
                    },
                };
                let value = if deduplicate {
                    crate::dedup_data_exec(&self.default, &parsed)
                } else {
                    parsed
                };
                let key = language.to_owned();
                let inserted = Language::Data(value);
                let ghost pair = (key, inserted);
                let ghost entries_before = self.languages.entries();
                self.languages.insert(key, inserted);
                proof {
                    lemma_insert_keeps_lang_wf(entries_before, self.languages.entries(), pair);
                }
                Ok(())
            },
        }
    }
}

/// The data a stored language contributes to `translate_all`: its own
/// data, or — through one link hop — the data of the language it links to.
pub open spec fn entry_data_spec(lang: LangView, langs: Map<Seq<char>, LangView>) -> Option<
    DataView,
> {
    match lang {
        LangView::Data(d) => Some(d),
        LangView::Link(target) => if langs.dom().contains(target) && langs[target] is Data {
            Some(langs[target]->Data_0)
        } else {
            None
        },
    }
}

/// The (language name, translation) pairs that `translate_all` yields for
/// the stored languages `entries`, in storage order: a language is skipped
/// when its link does not resolve or when it has no value at
/// (category, key).
pub open spec fn translate_all_spec(
    entries: Seq<(String, Language)>,
    langs: Map<Seq<char>, LangView>,
    category: Seq<char>,
    key: Seq<char>,
) -> Seq<(Seq<char>, Seq<char>)>
    decreases entries.len(),
{
    if entries.len() == 0 {
        Seq::empty()
    } else {
        let rest = translate_all_spec(entries.drop_first(), langs, category, key);
        match entry_data_spec(entries[0].1@, langs) {
            Some(d) => match lookup_spec(d, category, key) {
                Some(v) => seq![(entries[0].0@, v)] + rest,
                None => rest,
            },
            None => rest,
        }
    }
}

/// An iterator over all the translations of a category and key; it skips
/// languages whose link does not resolve and languages that lack the key.
pub struct Iter<'a> {
    /// The manager whose languages are walked.
    pub i18n: &'a I18n,
    /// The category to get the translations from.
    pub category: &'a str,
    /// The key to get the translations of.
    pub key: &'a str,
    /// How many stored languages have been examined so far.
    pub index: usize,
}

impl<'a> Iter<'a> {
    /// Well-formed: the manager is, and the cursor is in bounds.
    pub open spec fn wf(&self) -> bool {
        &&& self.i18n.wf()
        &&& self.index <= self.i18n.languages.entries().len()
    }

    /// The pairs this iterator has yet to yield.
    pub open spec fn remaining(&self) -> Seq<(Seq<char>, Seq<char>)> {
        translate_all_spec(
            self.i18n.languages.entries().skip(self.index as int),
            self.i18n.languages@,
            self.category@,
            self.key@,
        )
    }

    /// Yields the next (language name, translation) pair.
    pub fn next(&mut self) -> (r: Option<(String, String)>)
        requires
            old(self).wf(),
        ensures
            final(self).wf(),
            final(self).i18n == old(self).i18n,
            final(self).category == old(self).category,
            final(self).key == old(self).key,
            r is Some <==> old(self).remaining().len() > 0,
            r matches Some(p) ==> old(self).remaining()[0] == (p.0@, p.1@) && final(self).remaining() =~= old(self).remaining().drop_first(),
            r is None ==> final(self).remaining().len() == 0,
    {
        let languages = &self.i18n.languages;
        let n = languages.len();
        while self.index < n
            invariant
                self.index <= n,
                n == languages.entries().len(),
                languages == self.i18n.languages,
                self.i18n == old(self).i18n,
                self.category == old(self).category,
                self.key == old(self).key,
                self.i18n.wf(),
                self.remaining() == old(self).remaining(),
            decreases n - self.index,
        {
            let i = self.index;
            let entry = languages.entry_at(i);
            proof {
                assert(lang_wf(entry.1));
                assert(languages.entries().skip(i as int).drop_first() =~= languages.entries().skip(
                    i + 1,
                ));
                assert(languages.entries().skip(i as int)[0] == languages.entries()[i as int]);
            }
            let data = match &entry.1 {
                Language::Data(d) => Some(d),
                Language::Link(target) => match languages.get(target) {
                    Some(linked) => {
                        proof {
                            let j = choose|j: int|
                                0 <= j < languages.entries().len() && languages.entries()[j].0@
                                    == target@ && *linked == languages.entries()[j].1;
                            assert(lang_wf(*linked));
                        }
                        match linked {
                            Language::Data(d) => Some(d),
                            Language::Link(_) => None,
                        }
                    },
                    None => None,
                },
            };
            self.index = i + 1;
            if let Some(d) = data {
                match lookup(d, self.category, self.key) {
                    Some(v) => {
                        return Some((entry.0.clone(), v));
                    },
                    None => (),
                }
            }
        }
        proof {
            assert(languages.entries().skip(self.index as int) =~= Seq::<
                (String, Language),
            >::empty());
        }
        None
    }
}

impl I18n {
    /// Gets all the translations of a category and key from the languages
    /// managed by this instance, as an iterator.
    pub fn translate_all<'a>(&'a self, category: &'a str, key: &'a str) -> (r: Iter<'a>)
        requires
            self.wf(),
        ensures
            r.wf(),
            r.i18n == self,
            r.category@ == category@,
            r.key@ == key@,
            r.remaining() =~= translate_all_spec(
                self.languages.entries(),
                self.languages@,
                category@,
                key@,
            ),
    {
        proof {
            assert(self.languages.entries().skip(0) =~= self.languages.entries());
        }
        Iter { i18n: self, category, key, index: 0 }
    }
}

/// Every language deduplicated against the default data; links are kept.
fn dedup_all_exec(default: &LanguageData, languages: &Dict<Language>) -> (out: Dict<Language>)
    requires
        data_wf(*default),
        languages.wf(),
        forall|i: int|
            0 <= i < languages.entries().len() ==> lang_wf(#[trigger] languages.entries()[i].1),
    ensures
        out.wf(),
        forall|j: int| 0 <= j < out.entries().len() ==> lang_wf(#[trigger] out.entries()[j].1),
        out@ =~= dedup_all_spec(languages@, default@),
{
    let mut out: Dict<Language> = Dict::new();
    let n = languages.len();
    let mut i: usize = 0;
    while i < n
        invariant
            i <= n,
            n == languages.entries().len(),
            languages.wf(),
            forall|j: int|
                0 <= j < languages.entries().len() ==> lang_wf(
                    #[trigger] languages.entries()[j].1,
                ),
            data_wf(*default),
            out.wf(),
            forall|j: int| 0 <= j < out.entries().len() ==> lang_wf(#[trigger] out.entries()[j].1),
            out@ =~= dedup_all_spec(
                crate::dict::seq_assoc(languages.entries().take(i as int)),
                default@,
            ),
        decreases n - i,
    {
        let entry = languages.entry_at(i);
        proof {
            assert(lang_wf(entry.1));
            assert(languages.entries().take(i + 1).drop_last() =~= languages.entries().take(
                i as int,
            ));
            assert(languages.entries().take(i + 1).last() == languages.entries()[i as int]);
            crate::dict::lemma_distinct_take(languages.entries(), i as int);
        }
        let ghost prev = crate::dict::seq_assoc(languages.entries().take(i as int));
        let ghost cur = crate::dict::seq_assoc(languages.entries().take(i + 1));
        match &entry.1 {
            Language::Link(target) => {
                out.insert(entry.0.clone(), Language::Link(target.clone()));
            },
            Language::Data(data) => {
                let deduped = crate::dedup_data_exec(default, data);
                out.insert(entry.0.clone(), Language::Data(deduped));
            },
        }
        proof {
            assert(out@ =~= dedup_all_spec(cur, default@));
        }
        i = i + 1;
    }
    proof {
        assert(languages.entries().take(n as int) =~= languages.entries());
        languages.lemma_view_is_assoc();
    }
    out
}

/// The languages that survive link cleanup, checked against the full map.
fn cleanup_links_exec(languages: &Dict<Language>) -> (out: Dict<Language>)
    requires
        languages.wf(),
        forall|i: int|
            0 <= i < languages.entries().len() ==> lang_wf(#[trigger] languages.entries()[i].1),
    ensures
        out.wf(),
        forall|j: int| 0 <= j < out.entries().len() ==> lang_wf(#[trigger] out.entries()[j].1),
        out@ =~= cleanup_spec(languages@),
{
    let mut out: Dict<Language> = Dict::new();
    let n = languages.len();
    let mut i: usize = 0;
    while i < n
        invariant
            i <= n,
            n == languages.entries().len(),
            languages.wf(),
            forall|j: int|
                0 <= j < languages.entries().len() ==> lang_wf(
                    #[trigger] languages.entries()[j].1,
                ),
            out.wf(),
            forall|j: int| 0 <= j < out.entries().len() ==> lang_wf(#[trigger] out.entries()[j].1),
            out@ =~= cleanup_partial(
                crate::dict::seq_assoc(languages.entries().take(i as int)),
                languages@,
            ),
        decreases n - i,
    {
        let entry = languages.entry_at(i);
        proof {
            assert(lang_wf(entry.1));
            assert(languages.entries().take(i + 1).drop_last() =~= languages.entries().take(
                i as int,
            ));
            assert(languages.entries().take(i + 1).last() == languages.entries()[i as int]);
            crate::dict::lemma_distinct_take(languages.entries(), i as int);
            languages.lemma_props();
        }
        let ghost prev = crate::dict::seq_assoc(languages.entries().take(i as int));
        let ghost cur = crate::dict::seq_assoc(languages.entries().take(i + 1));
        match &entry.1 {
            Language::Data(data) => {
                let copied = crate::clone_data(data);
                out.insert(entry.0.clone(), Language::Data(copied));
            },
            Language::Link(target) => {
                let keep = match languages.get(target) {
                    Some(linked) => match linked {
                        Language::Data(_) => true,
                        Language::Link(_) => false,
                    },
                    None => false,
                };
                if keep {
                    out.insert(entry.0.clone(), Language::Link(target.clone()));
                }
            },
        }
        proof {
            assert(out@ =~= cleanup_partial(cur, languages@));
        }
        i = i + 1;
    }
    proof {
        assert(languages.entries().take(n as int) =~= languages.entries());
        languages.lemma_view_is_assoc();
    }
    out
}

/// For a language that is not defined in the catalog, `translate` falls
/// back entirely to the default language: it returns the `category.key`
/// placeholder when the default language also lacks (category, key), and
/// the default language's own value otherwise.
pub proof fn lemma_translate_undefined(
    catalog: I18n,
    language: Seq<char>,
    category: Seq<char>,
    key: Seq<char>,
)
    requires
        !catalog.languages@.dom().contains(language),
    ensures
        lookup_spec(catalog.default@, category, key) is None ==> translate_spec(
            catalog.languages@,
            catalog.default@,
            language,
            category,
            key,
        ) == placeholder_view(category, key),
        lookup_spec(catalog.default@, category, key) matches Some(v) ==> translate_spec(
            catalog.languages@,
            catalog.default@,
            language,
            category,
            key,
        ) == v,
{
}

/// Link resolution follows exactly one hop: a link that points at another
/// link resolves to nothing, never to the end of the chain.
pub proof fn lemma_link_one_hop(langs: Map<Seq<char>, LangView>, name: Seq<char>)
    requires
        langs.dom().contains(name),
        langs[name] is Link,
        langs.dom().contains(langs[name]->Link_0),
        langs[langs[name]->Link_0] is Link,
    ensures
        resolve_spec(langs, name) is None,
{
}

/// `translate_all` yields each stored language at most once, and only
/// stored languages: the yielded names are pairwise distinct and every one
/// of them is a name of the language map — so the default language, which
/// is stored out of band, is never among them unless a literal language
/// was also registered under its name.
pub proof fn lemma_translate_all_names(
    entries: Seq<(String, Language)>,
    langs: Map<Seq<char>, LangView>,
    category: Seq<char>,
    key: Seq<char>,
)
    requires
        crate::dict::distinct_keys(entries),
    ensures
        forall|i: int|
            #![trigger translate_all_spec(entries, langs, category, key)[i]]
            0 <= i < translate_all_spec(entries, langs, category, key).len() ==> exists|j: int|
                0 <= j < entries.len() && (#[trigger] entries[j].0@) == translate_all_spec(
                    entries,
                    langs,
                    category,
                    key,
                )[i].0,
        forall|i1: int, i2: int|
            #![trigger translate_all_spec(entries, langs, category, key)[i1], translate_all_spec(entries, langs, category, key)[i2]]
            0 <= i1 < i2 < translate_all_spec(entries, langs, category, key).len()
                ==> translate_all_spec(entries, langs, category, key)[i1].0 != translate_all_spec(
                entries,
                langs,
                category,
                key,
            )[i2].0,
    decreases entries.len(),
{
    let out = translate_all_spec(entries, langs, category, key);
    if entries.len() > 0 {
        let tail = entries.drop_first();
        assert forall|x: int, y: int| 0 <= x < y < tail.len() implies tail[x].0@ != tail[y].0@ by {
            assert(tail[x] == entries[x + 1] && tail[y] == entries[y + 1]);
        }
        lemma_translate_all_names(tail, langs, category, key);
        let rest = translate_all_spec(tail, langs, category, key);
        assert forall|i: int| #![trigger rest[i]] 0 <= i < rest.len() implies exists|j: int|
            0 <= j < entries.len() && (#[trigger] entries[j].0@) == rest[i].0 by {
            let j0 = choose|j: int| 0 <= j < tail.len() && tail[j].0@ == rest[i].0;
            assert(entries[j0 + 1].0@ == rest[i].0);
        }
        let head_yields = match entry_data_spec(entries[0].1@, langs) {
            Some(d) => lookup_spec(d, category, key) is Some,
            None => false,
        };
        if head_yields {
            assert(out.len() == rest.len() + 1);
            assert(out[0].0 == entries[0].0@);
            assert(forall|i: int| 1 <= i < out.len() ==> out[i] == rest[i - 1]);
            assert forall|i1: int, i2: int| 0 <= i1 < i2 < out.len() implies out[i1].0
                != out[i2].0 by {
                if i1 == 0 {
                    let j0 = choose|j: int| 0 <= j < tail.len() && tail[j].0@ == rest[i2 - 1].0;
                    assert(entries[0].0@ != entries[j0 + 1].0@);
                }
            }
            assert forall|i: int| #![trigger out[i]] 0 <= i < out.len() implies exists|j: int|
                0 <= j < entries.len() && (#[trigger] entries[j].0@) == out[i].0 by {
                if i == 0 {
                    assert(entries[0].0@ == out[0].0);
                } else {
                    let j0 = choose|j: int| 0 <= j < entries.len() && entries[j].0@ == rest[i - 1].0;
                    assert(entries[j0].0@ == out[i].0);
                }
            }
        } else {
            assert(out == rest);
        }
    }
}

impl Default for I18n {
    /// A manager with no languages and an empty default language.
    fn default() -> (r: Self)
        ensures
            r.wf(),
            r.languages@ =~= Map::<Seq<char>, LangView>::empty(),
            r.languages.entries().len() == 0,
            r.default@ =~= Map::<Seq<char>, crate::CategoryView>::empty(),
            r.default.entries().len() == 0,
    {
        I18n::new()
    }
}

/// Looks (category, key) up in well-formed language data.
fn lookup(data: &LanguageData, category: &str, key: &str) -> (r: Option<String>)
    requires
        data_wf(*data),
    ensures
        r is Some <==> lookup_spec(data@, category@, key@) is Some,
        r matches Some(v) ==> Some(v@) == lookup_spec(data@, category@, key@),
{
    match crate::resolve_translation(data, &category.to_owned(), &key.to_owned()) {
        Some(v) => Some(v.clone()),
        None => None,
    }
}

} // verus!
