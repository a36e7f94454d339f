//! Builder for the [`I18n`] catalog: accumulates per-language data and link
//! declarations, then finalizes them into an immutable catalog, extracting
//! the default language, deduplicating every other language against it, and
//! materializing the links whose targets own data.

use vstd::prelude::*;

use crate::dict::lemma_distinct_take;
use crate::dict::seq_assoc;
use crate::dict::Dict;
use crate::data_wf;
use crate::dedup_data;
use crate::lang_wf;
use crate::parsers::json_language;
use crate::parsers::json_language_bytes;
use crate::parsers::parse_from_slice;
use crate::parsers::parse_from_str;
use crate::strutil::is_link_payload;
use crate::strutil::is_link_payload_bytes;
use crate::strutil::link_target;
use crate::strutil::link_target_bytes;
use crate::strutil::strip_link_prefix;
use crate::strutil::strip_link_prefix_bytes;
use crate::strutil::utf8_str;
use crate::DataView;
use crate::Error;
use crate::I18n;
use crate::LangView;
use crate::Language;
use crate::LanguageData;

verus! {

/// Every literal language except the default, deduplicated against the
/// default's data `dd`.
pub open spec fn data_entries_spec(m: Map<Seq<char>, DataView>, dd: DataView) -> Map<
    Seq<char>,
    LangView,
> {
    Map::new(|n: Seq<char>| m.dom().contains(n), |n: Seq<char>| LangView::Data(dedup_data(dd, m[n])))
}

/// The literal languages in `base`, extended with every pending link whose
/// name is still free and whose target owns data in `base`. All other links
/// are dropped.
pub open spec fn add_links_spec(
    base: Map<Seq<char>, LangView>,
    links: Map<Seq<char>, Seq<char>>,
) -> Map<Seq<char>, LangView> {
    Map::new(
        |n: Seq<char>|
            base.dom().contains(n) || (links.dom().contains(n) && !base.dom().contains(n)
                && base.dom().contains(links[n]) && base[links[n]] is Data),
        |n: Seq<char>|
            if base.dom().contains(n) {
                base[n]
            } else {
                LangView::Link(links[n])
            },
    )
}

/// The language map of a finished catalog, built from the accumulated
/// literal languages, the pending links and the default language's name.
pub open spec fn build_spec(
    langs: Map<Seq<char>, DataView>,
    links: Map<Seq<char>, Seq<char>>,
    default: Seq<char>,
) -> Map<Seq<char>, LangView> {
    add_links_spec(data_entries_spec(langs.remove(default), langs[default]), links)
}

/// [`I18n`] builder.
#[derive(Debug)]
pub struct I18nBuilder {
    /// Languages data, per language name.
    pub languages: Dict<LanguageData>,
    /// Pending links, not validated until [`I18nBuilder::build`].
    pub links: Dict<String>,
    /// The name of the default language.
    pub default_language: String,
}

impl I18nBuilder {
    /// Well-formed: the accumulated maps and every accumulated language's
    /// data have pairwise-distinct keys.
    pub open spec fn wf(&self) -> bool {
        &&& self.languages.wf()
        &&& forall|i: int|
            0 <= i < self.languages.entries().len() ==> data_wf(
                #[trigger] self.languages.entries()[i].1,
            )
        &&& self.links.wf()
    }

    /// Creates a new [`I18nBuilder`].
    pub fn new(default_language: &str) -> (r: Self)
        ensures
            r.wf(),
            r.languages@ =~= Map::<Seq<char>, DataView>::empty(),
            r.languages.entries().len() == 0,
            r.links@ =~= Map::<Seq<char>, Seq<char>>::empty(),
            r.links.entries().len() == 0,
            r.default_language@ == default_language@,
    {
        I18nBuilder {
            languages: Dict::new(),
            links: Dict::new(),
            default_language: default_language.to_owned(),
        }
    }

    /// Adds a language to the builder, overwriting any language of the same
    /// name.
    pub fn add_language(self, language: &str, categories: LanguageData) -> (r: Self)
        requires
            self.wf(),
            data_wf(categories),
        ensures
            r.wf(),
            r.languages@ =~= self.languages@.insert(language@, categories@),
            r.links == self.links,
            r.default_language == self.default_language,
    {
        let mut languages = self.languages;
        languages.insert(language.to_owned(), categories);
        I18nBuilder { languages, links: self.links, default_language: self.default_language }
    }

    /// Adds a link to the builder, overwriting any link of the same name.
    /// The target is not validated until [`I18nBuilder::build`].
    pub fn add_link(self, language: &str, link: &str) -> (r: Self)
        requires
            self.wf(),
        ensures
            r.wf(),
            r.links@ =~= self.links@.insert(language@, link@),
            r.languages == self.languages,
            r.default_language == self.default_language,
    {
        let mut links = self.links;
        links.insert(language.to_owned(), link.to_owned());
        I18nBuilder { languages: self.languages, links, default_language: self.default_language }
    }

    /// Sets the default language.
    pub fn set_default_language(self, language: &str) -> (r: Self)
        requires
            self.wf(),
        ensures
            r.wf(),
            r.default_language@ == language@,
            r.languages == self.languages,
            r.links == self.links,
    {
        I18nBuilder {
            languages: self.languages,
            links: self.links,
            default_language: language.to_owned(),
        }
    }

    /// Gets the default language.
    pub fn get_default_language(&self) -> (r: &str)
        ensures
            r@ == self.default_language@,
    {
        self.default_language.as_str()
    }

    /// Adds a language from a string: a payload that starts with the
    /// `_link:` sentinel records a link to the rest of the payload, and any
    /// other payload is handed to the parser.
    pub fn add_from_str(self, language: &str, string: &str) -> (r: Result<Self, Error>)
        requires
            self.wf(),
        ensures
            is_link_payload(string@) ==> (r matches Ok(b) && b.wf() && b.links@ =~= self.links@.insert(
                language@,
                link_target(string@),
            ) && b.languages == self.languages && b.default_language == self.default_language),
            !is_link_payload(string@) && json_language(string@) is Some ==> (r matches Ok(b)
                && b.wf() && b.languages@ =~= self.languages@.insert(
                language@,
                json_language(string@)->0,
            ) && b.links == self.links && b.default_language == self.default_language),
            !is_link_payload(string@) && json_language(string@) is None ==> (r matches Err(e)
                && e is Json),
    {
        match strip_link_prefix(string) {
            Some(target) => Ok(self.add_link(language, target.as_str())),
            None => match parse_from_str(string) {
                Ok(data) => Ok(self.add_language(language, data)),
                Err(e) => Err(e),
            },
        }
    }

    /// Adds a language from a byte slice: a payload whose first six bytes
    /// are the `_link:` sentinel records a link to the UTF-8 decoding of
    /// the remaining bytes, and any other payload — including one shorter
    /// than the sentinel — is handed to the parser.
    pub fn add_from_slice(self, language: &str, slice: &[u8]) -> (r: Result<Self, Error>)
        requires
            self.wf(),
        ensures
            is_link_payload_bytes(slice@) && vstd::utf8::valid_utf8(link_target_bytes(slice@)) ==> (
            r matches Ok(b) && b.wf() && b.links@ =~= self.links@.insert(
                language@,
                vstd::utf8::decode_utf8(link_target_bytes(slice@)),
            ) && b.languages == self.languages && b.default_language == self.default_language),
            is_link_payload_bytes(slice@) && !vstd::utf8::valid_utf8(link_target_bytes(slice@))
                ==> (r matches Err(e) && e is Utf8),
            !is_link_payload_bytes(slice@) && json_language_bytes(slice@) is Some ==> (r matches Ok(
                b,
            ) && b.wf() && b.languages@ =~= self.languages@.insert(
                language@,
                json_language_bytes(slice@)->0,
            ) && b.links == self.links && b.default_language == self.default_language),
            !is_link_payload_bytes(slice@) && json_language_bytes(slice@) is None ==> (r matches Err(
                e,
            ) && e is Json),
    {
        match strip_link_prefix_bytes(slice) {
            Some(tail) => match utf8_str(tail) {
                Some(target) => {
                    proof {
                        vstd::utf8::encode_utf8_decode_utf8(target@);
                    }
                    Ok(self.add_link(language, target))
                },
                None => Err(Error::Utf8),
            },
            None => match parse_from_slice(slice) {
                Ok(data) => Ok(self.add_language(language, data)),
                Err(e) => Err(e),
            },
        }
    }

    /// Removes a language from the builder.
    pub fn remove_language(self, language: &str) -> (r: Self)
        requires
            self.wf(),
        ensures
            r.wf(),
            r.languages@ =~= self.languages@.remove(language@),
            r.links == self.links,
            r.default_language == self.default_language,
    {
        let mut languages = self.languages;
        languages.remove(&language.to_owned());
        I18nBuilder { languages, links: self.links, default_language: self.default_language }
    }

    /// Removes a link from the builder.
    pub fn remove_link(self, language: &str) -> (r: Self)
        requires
            self.wf(),
        ensures
            r.wf(),
            r.links@ =~= self.links@.remove(language@),
            r.languages == self.languages,
            r.default_language == self.default_language,
    {
        let mut links = self.links;
        links.remove(&language.to_owned());
        I18nBuilder { languages: self.languages, links, default_language: self.default_language }
    }

    /// Removes all languages from the builder.
    pub fn clear_languages(self) -> (r: Self)
        requires
            self.wf(),
        ensures
            r.wf(),
            r.languages@ =~= Map::<Seq<char>, DataView>::empty(),
            r.links == self.links,
            r.default_language == self.default_language,
    {
        let mut languages = self.languages;
        languages.clear();
        I18nBuilder { languages, links: self.links, default_language: self.default_language }
    }

    /// Removes all links from the builder.
    pub fn clear_links(self) -> (r: Self)
        requires
            self.wf(),
        ensures
            r.wf(),
            r.links@ =~= Map::<Seq<char>, Seq<char>>::empty(),
            r.languages == self.languages,
            r.default_language == self.default_language,
    {
        let mut links = self.links;
        links.clear();
        I18nBuilder { languages: self.languages, links, default_language: self.default_language }
    }

    /// Gets the languages.
    pub fn get_languages(&self) -> (r: &Dict<LanguageData>)
        ensures
            *r == self.languages,
    {
        &self.languages
    }

    /// Gets the links.
    pub fn get_links(&self) -> (r: &Dict<String>)
        ensures
            *r == self.links,
    {
        &self.links
    }

    /// Gets the languages, mutably.
    pub fn get_language_mut(&mut self) -> (r: &mut Dict<LanguageData>)
        ensures
            *r == old(self).languages,
            final(self).languages == *final(r),
            final(self).links == old(self).links,
            final(self).default_language == old(self).default_language,
    {
        &mut self.languages
    }

    /// Gets the links, mutably.
    pub fn get_links_mut(&mut self) -> (r: &mut Dict<String>)
        ensures
            *r == old(self).links,
            final(self).links == *final(r),
            final(self).languages == old(self).languages,
            final(self).default_language == old(self).default_language,
    {
        &mut self.links
    }

    /// Builds the [`I18n`] catalog.
    ///
    /// The language named as default is taken out of the language set and
    /// becomes the catalog's default; if it is absent the build fails with
    /// [`Error::LanguageNotFound`]. Every other language is deduplicated
    /// against it. A pending link is materialized only when its name is not
    /// taken by a literal language and its target is a literal language;
    /// links failing this check are silently dropped.
    pub fn build(self) -> (r: Result<I18n, Error>)
        requires
            self.wf(),
        ensures
            r is Ok <==> self.languages@.dom().contains(self.default_language@),
            r matches Ok(c) ==> c.wf() && c.default@ == self.languages@[self.default_language@]
                && c.languages@ =~= build_spec(
                self.languages@,
                self.links@,
                self.default_language@,
            ),
            r matches Err(e) ==> e matches Error::LanguageNotFound(n) && n@
                == self.default_language@,
    {
        let mut languages = self.languages;
        let links = self.links;
        let default_name = self.default_language;
        proof {
            languages.lemma_props();
        }
        let default_data = match languages.remove(&default_name) {
            Some(d) => d,
            None => {
                return Err(Error::LanguageNotFound(default_name));
            },
        };
        proof {
            let i = choose|i: int|
                0 <= i < self.languages.entries().len() && self.languages.entries()[i].0@
                    == default_name@ && default_data == self.languages.entries()[i].1
                    && languages.entries() == self.languages.entries().remove(i);
            assert(data_wf(default_data));
            assert forall|j: int| 0 <= j < languages.entries().len() implies data_wf(
                #[trigger] languages.entries()[j].1,
            ) by {
                if j < i {
                    assert(languages.entries()[j] == self.languages.entries()[j]);
                } else {
                    assert(languages.entries()[j] == self.languages.entries()[j + 1]);
                }
            }
        }
        let ghost dd = default_data@;

        let mut out: Dict<Language> = Dict::new();
        let n = languages.len();
        let mut i: usize = 0;
        while i < n
            invariant
                i <= n,
                n == languages.entries().len(),
                languages.wf(),
                forall|j: int|
                    0 <= j < languages.entries().len() ==> data_wf(
                        #[trigger] languages.entries()[j].1,
                    ),
                data_wf(default_data),
                dd == default_data@,
                out.wf(),
                forall|j: int|
                    0 <= j < out.entries().len() ==> lang_wf(#[trigger] out.entries()[j].1),
                out@ =~= data_entries_spec(seq_assoc(languages.entries().take(i as int)), dd),
            decreases n - i,
        {
            let entry = languages.entry_at(i);
            proof {
                assert(data_wf(entry.1));
                assert(languages.entries().take(i + 1).drop_last() =~= languages.entries().take(
                    i as int,
                ));
                assert(languages.entries().take(i + 1).last() == languages.entries()[i as int]);
                lemma_distinct_take(languages.entries(), i as int);
            }
            let ghost prev = seq_assoc(languages.entries().take(i as int));
            let ghost cur = seq_assoc(languages.entries().take(i + 1));
            let deduped = crate::dedup_data_exec(&default_data, &entry.1);
            out.insert(entry.0.clone(), Language::Data(deduped));
            proof {
                assert(data_entries_spec(cur, dd) =~= data_entries_spec(prev, dd).insert(
                    entry.0@,
                    LangView::Data(dedup_data(dd, entry.1@)),
                ));
            }
            i = i + 1;
        }
        proof {
            assert(languages.entries().take(n as int) =~= languages.entries());
            languages.lemma_view_is_assoc();
        }
        let ghost base = out@;
        proof {
            assert(base =~= data_entries_spec(languages@, dd));
            assert(forall|nm: Seq<char>|
                #[trigger] base.dom().contains(nm) ==> base[nm] is Data);
        }

        let m = links.len();
        let mut i: usize = 0;
        while i < m
            invariant
                i <= m,
                m == links.entries().len(),
                links.wf(),
                out.wf(),
                forall|j: int|
                    0 <= j < out.entries().len() ==> lang_wf(#[trigger] out.entries()[j].1),
                forall|nm: Seq<char>| #[trigger] base.dom().contains(nm) ==> base[nm] is Data,
                out@ =~= add_links_spec(base, seq_assoc(links.entries().take(i as int))),
            decreases m - i,
        {
            let entry = links.entry_at(i);
            proof {
                assert(links.entries().take(i + 1).drop_last() =~= links.entries().take(i as int));
                assert(links.entries().take(i + 1).last() == links.entries()[i as int]);
                lemma_distinct_take(links.entries(), i as int);
            }
            let ghost prev = seq_assoc(links.entries().take(i as int));
            let ghost cur = seq_assoc(links.entries().take(i + 1));
            let name_taken = out.contains_key(&entry.0);
            let target_ok = match out.get(&entry.1) {
                Some(target_lang) => match target_lang {
                    Language::Data(_) => true,
                    Language::Link(_) => false,
                },
                None => false,
            };
            proof {
                assert(!prev.dom().contains(entry.0@));
                assert(cur =~= prev.insert(entry.0@, entry.1@));
                assert(name_taken == base.dom().contains(entry.0@));
                assert(target_ok == base.dom().contains(entry.1@));
            }
            if !name_taken && target_ok {
                out.insert(entry.0.clone(), Language::Link(entry.1.clone()));
            }
            proof {
                assert(out@ =~= add_links_spec(base, cur));
            }
            i = i + 1;
        }
        proof {
            assert(links.entries().take(m as int) =~= links.entries());
            links.lemma_view_is_assoc();
            assert(out@ =~= build_spec(self.languages@, self.links@, default_name@)) by {
                assert(languages@ =~= self.languages@.remove(default_name@));
                assert(dd == self.languages@[default_name@]);
            }
        }
        Ok(I18n { languages: out, default: default_data })
    }
}

impl Default for I18nBuilder {
    /// A builder with no languages, no links and an empty default language
    /// name.
    fn default() -> (r: Self)
        ensures
            r.wf(),
            r.languages@ =~= Map::<Seq<char>, DataView>::empty(),
            r.languages.entries().len() == 0,
            r.links@ =~= Map::<Seq<char>, Seq<char>>::empty(),
            r.links.entries().len() == 0,
            r.default_language@ =~= Seq::<char>::empty(),
    {
        proof {
            reveal_strlit("");
        }
        I18nBuilder::new("")
    }
}

/// After a successful build, a literal language keeps exactly the entries
/// that differ from the default language: a translation equal to the
/// default's value at the same (category, key) is gone, and any other
/// translation survives unchanged.
pub proof fn lemma_build_deduplicates(
    langs: Map<Seq<char>, DataView>,
    links: Map<Seq<char>, Seq<char>>,
    default: Seq<char>,
    name: Seq<char>,
    category: Seq<char>,
    key: Seq<char>,
)
    requires
        langs.dom().contains(default),
        langs.dom().contains(name),
        name != default,
        langs[name].dom().contains(category),
        langs[name][category].dom().contains(key),
    ensures
        build_spec(langs, links, default).dom().contains(name),
        build_spec(langs, links, default)[name] is Data,
        crate::lookup_spec(langs[default], category, key) == Some(langs[name][category][key])
            ==> crate::lookup_spec(
            build_spec(langs, links, default)[name]->Data_0,
            category,
            key,
        ) is None,
        crate::lookup_spec(langs[default], category, key) != Some(langs[name][category][key])
            ==> crate::lookup_spec(build_spec(langs, links, default)[name]->Data_0, category, key)
            == Some(langs[name][category][key]),
{
    let base = data_entries_spec(langs.remove(default), langs[default]);
    assert(base.dom().contains(name));
    assert(build_spec(langs, links, default)[name] == LangView::Data(
        dedup_data(langs[default], langs[name]),
    ));
    let v = langs[name][category][key];
    if crate::lookup_spec(langs[default], category, key) != Some(v) {
        assert(crate::category_survives(langs[default], category, langs[name][category]));
        assert(crate::dedup_category(langs[default], category, langs[name][category]).dom().contains(
            key,
        ));
    }
}

/// A link whose target lacks literal data at build time is dropped, never
/// materialized: the built catalog maps the link's name to literal data
/// when a literal language of that name exists, and to nothing otherwise.
pub proof fn lemma_dangling_link_dropped(
    langs: Map<Seq<char>, DataView>,
    links: Map<Seq<char>, Seq<char>>,
    default: Seq<char>,
    name: Seq<char>,
)
    requires
        links.dom().contains(name),
        !langs.remove(default).dom().contains(links[name]),
    ensures
        langs.remove(default).dom().contains(name) ==> build_spec(langs, links, default)[name]
            is Data,
        !langs.remove(default).dom().contains(name) ==> !build_spec(
            langs,
            links,
            default,
        ).dom().contains(name),
{
}

/// A built catalog never holds a link to a link or to a missing language:
/// every link in it points at a literal language of the catalog, so it
/// resolves in one hop.
pub proof fn lemma_built_links_resolve(
    langs: Map<Seq<char>, DataView>,
    links: Map<Seq<char>, Seq<char>>,
    default: Seq<char>,
    name: Seq<char>,
)
    requires
        build_spec(langs, links, default).dom().contains(name),
        build_spec(langs, links, default)[name] is Link,
    ensures
        ({
            let built = build_spec(langs, links, default);
            let target = built[name]->Link_0;
            &&& built.dom().contains(target)
            &&& built[target] is Data
            &&& crate::i18n::resolve_spec(built, name) is Some
        }),
{
}

/// When no link is registered under the default language's name, the built
/// catalog does not hold that name at all: the default language stays out
/// of band, and `translate_all` never yields it.
pub proof fn lemma_build_excludes_default(
    langs: Map<Seq<char>, DataView>,
    links: Map<Seq<char>, Seq<char>>,
    default: Seq<char>,
)
    requires
        !links.dom().contains(default),
    ensures
        !build_spec(langs, links, default).dom().contains(default),
{
}

/// Round trip through a build: querying a built catalog for a literal
/// language returns every original translation that differs from the
/// default language's value at the same (category, key), unchanged.
pub proof fn lemma_build_round_trip(
    langs: Map<Seq<char>, DataView>,
    links: Map<Seq<char>, Seq<char>>,
    default: Seq<char>,
    name: Seq<char>,
    category: Seq<char>,
    key: Seq<char>,
)
    requires
        langs.dom().contains(default),
        langs.dom().contains(name),
        name != default,
        langs[name].dom().contains(category),
        langs[name][category].dom().contains(key),
        crate::lookup_spec(langs[default], category, key) != Some(langs[name][category][key]),
    ensures
        crate::i18n::translate_spec(
            build_spec(langs, links, default),
            langs[default],
            name,
            category,
            key,
        ) == langs[name][category][key],
{
    lemma_build_deduplicates(langs, links, default, name, category, key);
}

} // verus!
