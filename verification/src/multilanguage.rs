//! Manager for language files: caches parsed languages by their metadata
//! code, records links between language names, and answers translation
//! queries with fallback to a default language.

use vstd::prelude::*;

use crate::dict::Dict;
use crate::language::toml_tables;
use crate::language::Language;
use crate::language::LanguageView;
use crate::language::meta_of_tables;
use crate::lookup_spec;
use crate::strutil::apply_args;
use crate::strutil::apply_args_str;
use crate::strutil::placeholder_view;

verus! {

/// The language that `Multilanguage::get` returns for `name`: the link
/// target's cache entry when `name` is a link to a cached language, the
/// cache entry under `name` when there is no link of that name, and the
/// default language otherwise.
pub open spec fn get_spec(
    cache: Map<Seq<char>, LanguageView>,
    links: Map<Seq<char>, Seq<char>>,
    default: LanguageView,
    name: Seq<char>,
) -> LanguageView {
    if links.dom().contains(name) {
        if cache.dom().contains(links[name]) {
            cache[links[name]]
        } else {
            default
        }
    } else if cache.dom().contains(name) {
        cache[name]
    } else {
        default
    }
}

/// What `Multilanguage::translate` returns: the looked-up language's value
/// at (category, key), the default language's value, or the placeholder.
pub open spec fn translate_spec(
    cache: Map<Seq<char>, LanguageView>,
    links: Map<Seq<char>, Seq<char>>,
    default: LanguageView,
    name: Seq<char>,
    category: Seq<char>,
    key: Seq<char>,
) -> Seq<char> {
    match lookup_spec(get_spec(cache, links, default, name).data, category, key) {
        Some(v) => v,
        None => match lookup_spec(default.data, category, key) {
            Some(v) => v,
            None => placeholder_view(category, key),
        },
    }
}

/// Manager for the languages files.
#[derive(Debug, Clone)]
pub struct Multilanguage {
    /// The cache of the languages, by language code.
    pub cache: Dict<Language>,
    /// The default language.
    pub default_language: Language,
    /// The links between the languages.
    pub links: Dict<String>,
}

/// After inserting a well-formed language file, every cached language file
/// is still well-formed.
proof fn lemma_insert_keeps_file_wf(
    s: Seq<(String, Language)>,
    t: Seq<(String, Language)>,
    p: (String, Language),
)
    requires
        forall|j: int| 0 <= j < s.len() ==> (#[trigger] s[j].1).wf(),
        p.1.wf(),
        t == s.push(p) || exists|i: int| 0 <= i < s.len() && t == s.update(i, p),
    ensures
        forall|j: int| 0 <= j < t.len() ==> (#[trigger] t[j].1).wf(),
{
    if t == s.push(p) {
        assert forall|j: int| 0 <= j < t.len() implies (#[trigger] t[j].1).wf() by {
            if j < s.len() {
                assert(t[j] == s[j]);
            }
        }
    } else {
        let i = choose|i: int| 0 <= i < s.len() && t == s.update(i, p);
        assert forall|j: int| 0 <= j < t.len() implies (#[trigger] t[j].1).wf() by {
            if j != i {
                assert(t[j] == s[j]);
            }
        }
    }
}

impl Multilanguage {
    /// Well-formed: the cache, every language in it, the default language
    /// and the link map are.
    pub open spec fn wf(&self) -> bool {
        &&& self.cache.wf()
        &&& forall|i: int|
            0 <= i < self.cache.entries().len() ==> (#[trigger] self.cache.entries()[i].1).wf()
        &&& self.default_language.wf()
        &&& self.links.wf()
    }

    /// Create a new empty [`Multilanguage`] with only the default language.
    pub fn new(language: Language) -> (r: Self)
        requires
            language.wf(),
        ensures
            r.wf(),
            r.default_language == language,
            r.cache@ =~= Map::<Seq<char>, LanguageView>::empty(),
            r.cache.entries().len() == 0,
            r.links@ =~= Map::<Seq<char>, Seq<char>>::empty(),
            r.links.entries().len() == 0,
    {
        Multilanguage { cache: Dict::new(), default_language: language, links: Dict::new() }
    }

    /// Add a language to the cache using the metadata code as the language
    /// name; returns `false`, adding nothing, when the language has no
    /// code.
    pub fn add_language(&mut self, language: Language) -> (r: bool)
        requires
            old(self).wf(),
            language.wf(),
        ensures
            final(self).wf(),
            r == (language@.metadata.code is Some),
            r ==> final(self).cache@ =~= old(self).cache@.insert(
                language@.metadata.code->0,
                language@,
            ),
            !r ==> *final(self) == *old(self),
            final(self).links == old(self).links,
            final(self).default_language == old(self).default_language,
    {
        let name = match language.metadata().code() {
            Some(code) => code.to_owned(),
            None => {
                return false;
            },
        };
        let ghost entries0 = self.cache.entries();
        let ghost pair = (name, language);
        self.cache.insert(name, language);
        proof {
            lemma_insert_keeps_file_wf(entries0, self.cache.entries(), pair);
        }
        true
    }

    /// Set the default language from the cache, resolving the link if
    /// needed; when neither a linked nor a cached language of that name
    /// exists, the default language is kept.
    pub fn set_default_language(&mut self, language: &str)
        requires
            old(self).wf(),
        ensures
            final(self).wf(),
            final(self).cache == old(self).cache,
            final(self).links == old(self).links,
            final(self).default_language@ == (if old(self).links@.dom().contains(language@) && old(
                self,
            ).cache@.dom().contains(old(self).links@[language@]) {
                old(self).cache@[old(self).links@[language@]]
            } else if old(self).cache@.dom().contains(language@) {
                old(self).cache@[language@]
            } else {
                old(self).default_language@
            }),
    {
        let name = language.to_owned();
        let linked = match self.links.get(&name) {
            Some(target) => self.cache.get(target),
            None => None,
        };
        let copied = match linked {
            Some(found) => {
                proof {
                    let i = choose|i: int|
                        0 <= i < self.cache.entries().len() && *found
                            == self.cache.entries()[i].1;
                    assert(found.wf());
                }
                Some(found.duplicate())
            },
            None => match self.cache.get(&name) {
                Some(found) => {
                    proof {
                        let i = choose|i: int|
                            0 <= i < self.cache.entries().len() && *found
                                == self.cache.entries()[i].1;
                        assert(found.wf());
                    }
                    Some(found.duplicate())
                },
                None => None,
            },
        };
        match copied {
            Some(found) => {
                self.default_language = found;
            },
            None => (),
        }
    }

    /// Load a language from a string, interpreting the metadata to add it
    /// to the cache or to the links; returns `false`, adding nothing, when
    /// the payload does not parse or carries no language code.
    pub fn load_str(&mut self, s: &str) -> (r: bool)
        requires
            old(self).wf(),
        ensures
            final(self).wf(),
            load_outcome_spec(*old(self), *final(self), s@, None, r),
    {
        self.load_str_named(s, None)
    }

    /// Load a language from a string as [`Multilanguage::load_str`], using
    /// `fallback_name` as the language name when the metadata carries no
    /// code. This is the ingestion step for a payload read from a file,
    /// whose base name serves as the fallback.
    pub fn load_str_named(&mut self, s: &str, fallback_name: Option<String>) -> (r: bool)
        requires
            old(self).wf(),
        ensures
            final(self).wf(),
            load_outcome_spec(
                *old(self),
                *final(self),
                s@,
                match fallback_name {
                    Some(ref f) => Some(f@),
                    None => None,
                },
                r,
            ),
    {
        let lang = match Language::load_str(s) {
            Some(l) => l,
            None => {
                return false;
            },
        };
        let link_opt = match lang.metadata().link() {
            Some(l) => Some(l.to_owned()),
            None => None,
        };
        let name_opt = match lang.metadata().code() {
            Some(c) => Some(c.to_owned()),
            None => fallback_name,
        };
        match link_opt {
            Some(link) => match name_opt {
                Some(name) => {
                    self.links.insert(name, link);
                    true
                },
                None => false,
            },
            None => match name_opt {
                Some(name) => {
                    let ghost entries0 = self.cache.entries();
                    let ghost pair = (name, lang);
                    self.cache.insert(name, lang);
                    proof {
                        lemma_insert_keeps_file_wf(entries0, self.cache.entries(), pair);
                    }
                    true
                },
                None => false,
            },
        }
    }

    /// Cleanup the links, removing the dangling ones: every link whose
    /// target is not in the cache is removed.
    pub fn cleanup_links(&mut self)
        requires
            old(self).wf(),
        ensures
            final(self).wf(),
            final(self).cache == old(self).cache,
            final(self).default_language == old(self).default_language,
            final(self).links@ =~= Map::new(
                |n: Seq<char>| old(self).links@.dom().contains(n) && old(
                    self,
                ).cache@.dom().contains(old(self).links@[n]),
                |n: Seq<char>| old(self).links@[n],
            ),
    {
        let kept = keep_resolving_links(&self.links, &self.cache);
        self.links = kept;
    }

    /// Get the language from the cache, resolving the link if needed, or
    /// the default language if not found.
    pub fn get(&self, language: &str) -> (r: &Language)
        requires
            self.wf(),
        ensures
            r@ == get_spec(self.cache@, self.links@, self.default_language@, language@),
            r.wf(),
    {
        let name = language.to_owned();
        match self.links.get(&name) {
            Some(target) => match self.cache.get(target) {
                Some(found) => {
                    proof {
                        let i = choose|i: int|
                            0 <= i < self.cache.entries().len() && *found
                                == self.cache.entries()[i].1;
                        assert(found.wf());
                    }
                    found
                },
                None => &self.default_language,
            },
            None => match self.cache.get(&name) {
                Some(found) => {
                    proof {
                        let i = choose|i: int|
                            0 <= i < self.cache.entries().len() && *found
                                == self.cache.entries()[i].1;
                        assert(found.wf());
                    }
                    found
                },
                None => &self.default_language,
            },
        }
    }

    /// Get the translation of (category, key) in the named language,
    /// resolving the link if needed, falling back to the default language
    /// and then to the `category.key` placeholder.
    pub fn translate(&self, language: &str, category: &str, key: &str) -> (r: String)
        requires
            self.wf(),
        ensures
            r@ == translate_spec(
                self.cache@,
                self.links@,
                self.default_language@,
                language@,
                category@,
                key@,
            ),
    {
        let found = self.get(language);
        match found.get_translation(category, key) {
            Some(v) => v.clone(),
            None => self.default_language.translate(category, key),
        }
    }

    /// As [`Multilanguage::translate`], then replaces each `{key}` of the
    /// arguments by its value, in argument order.
    pub fn translate_with(
        &self,
        language: &str,
        category: &str,
        key: &str,
        args: &Vec<(String, String)>,
    ) -> (r: String)
        requires
            self.wf(),
        ensures
            r@ == apply_args(
                translate_spec(
                    self.cache@,
                    self.links@,
                    self.default_language@,
                    language@,
                    category@,
                    key@,
                ),
                args@,
            ),
    {
        apply_args_str(self.translate(language, category, key), args)
    }
}

/// How loading one payload changes the manager: nothing on a parse
/// failure; a link insertion when the metadata links elsewhere and a name
/// is known; a cache insertion when it does not and a name is known; and
/// nothing when no name is known. The name is the metadata code, or the
/// fallback when there is no code.
pub open spec fn load_outcome_spec(
    pre: Multilanguage,
    post: Multilanguage,
    s: Seq<char>,
    fallback: Option<Seq<char>>,
    r: bool,
) -> bool {
    match toml_tables(s) {
        None => r == false && post == pre,
        Some(tables) => {
            let meta = meta_of_tables(tables);
            let name = if meta.code is Some {
                meta.code
            } else {
                fallback
            };
            match name {
                None => r == false && post == pre,
                Some(name) => {
                    if meta.link is Some {
                        r == true && post.links@ == pre.links@.insert(name, meta.link->0)
                            && post.cache == pre.cache && post.default_language
                            == pre.default_language
                    } else {
                        r == true && post.cache@ == pre.cache@.insert(
                            name,
                            LanguageView { data: tables.remove("_metadata"@), metadata: meta },
                        ) && post.links == pre.links && post.default_language
                            == pre.default_language
                    }
                },
            }
        },
    }
}

/// The links whose targets are in the cache.
fn keep_resolving_links(links: &Dict<String>, cache: &Dict<Language>) -> (out: Dict<String>)
    requires
        links.wf(),
        cache.wf(),
    ensures
        out.wf(),
        out@ =~= Map::new(
            |n: Seq<char>| links@.dom().contains(n) && cache@.dom().contains(links@[n]),
            |n: Seq<char>| links@[n],
        ),
{
    let mut out: Dict<String> = Dict::new();
    let n = links.len();
    let mut i: usize = 0;
    while i < n
        invariant
            i <= n,
            n == links.entries().len(),
            links.wf(),
            cache.wf(),
            out.wf(),
            out@ =~= Map::new(
                |nm: Seq<char>| crate::dict::seq_assoc(links.entries().take(i as int)).dom().contains(
                    nm,
                ) && cache@.dom().contains(
                    crate::dict::seq_assoc(links.entries().take(i as int))[nm],
                ),
                |nm: Seq<char>| crate::dict::seq_assoc(links.entries().take(i as int))[nm],
            ),
        decreases n - i,
    {
        let entry = links.entry_at(i);
        proof {
            assert(links.entries().take(i + 1).drop_last() =~= links.entries().take(i as int));
            assert(links.entries().take(i + 1).last() == links.entries()[i as int]);
            crate::dict::lemma_distinct_take(links.entries(), i as int);
        }
        let ghost prev = crate::dict::seq_assoc(links.entries().take(i as int));
        let ghost cur = crate::dict::seq_assoc(links.entries().take(i + 1));
        proof {
            assert(!prev.dom().contains(entry.0@));
            assert(cur =~= prev.insert(entry.0@, entry.1@));
        }
        if cache.contains_key(&entry.1) {
            out.insert(entry.0.clone(), entry.1.clone());
        }
        proof {
            assert(out@ =~= Map::new(
                |nm: Seq<char>| cur.dom().contains(nm) && cache@.dom().contains(cur[nm]),
                |nm: Seq<char>| cur[nm],
            ));
        }
        i = i + 1;
    }
    proof {
        assert(links.entries().take(n as int) =~= links.entries());
        links.lemma_view_is_assoc();
    }
    out
}

/// The language name derived from a file path: the part of the path after
/// the last `/`, with everything from its last `.` on removed — unless
/// that `.` is the base name's first character. `None` when nothing
/// follows the last `/`.
pub open spec fn file_stem_of(s: Seq<char>) -> Option<Seq<char>> {
    let start: int = if has_char_from(s, '/', 0) {
        last_pos_from(s, '/', 0) + 1
    } else {
        0
    };
    let base = s.skip(start);
    if base.len() == 0 {
        None
    } else if has_char_from(base, '.', 1) {
        Some(base.take(last_pos_from(base, '.', 1)))
    } else {
        Some(base)
    }
}

/// True when `c` occurs in `s` at or after position `from`.
pub open spec fn has_char_from(s: Seq<char>, c: char, from: int) -> bool {
    exists|i: int| from <= i < s.len() && s[i] == c
}

/// The last position at or after `from` where `c` occurs in `s`.
pub open spec fn last_pos_from(s: Seq<char>, c: char, from: int) -> int {
    choose|i: int|
        from <= i < s.len() && s[i] == c && forall|j: int| i < j < s.len() ==> s[j] != c
}

/// The position `p` is the last occurrence of `c` at or after `from`.
proof fn lemma_last_pos(s: Seq<char>, c: char, from: int, p: int)
    requires
        from <= p < s.len(),
        s[p] == c,
        forall|j: int| p < j < s.len() ==> s[j] != c,
    ensures
        has_char_from(s, c, from),
        last_pos_from(s, c, from) == p,
{
    assert(has_char_from(s, c, from));
    let q = last_pos_from(s, c, from);
    assert(from <= q < s.len() && s[q] == c && forall|j: int| q < j < s.len() ==> s[j] != c);
    if q < p {
        assert(s[p] != c);
    }
    if p < q {
        assert(s[q] != c);
    }
}

/// Get the language name from the file name: the base name without its
/// extension.
pub fn get_language_from_file(path: &str) -> (r: Option<String>)
    ensures
        r is Some <==> file_stem_of(path@) is Some,
        r matches Some(v) ==> Some(v@) == file_stem_of(path@),
{
    let n = path.unicode_len();
    let mut start: usize = 0;
    let mut i: usize = 0;
    while i < n
        invariant
            i <= n,
            n == path@.len(),
            start <= i,
            start > 0 ==> path@[start - 1] == '/',
            forall|j: int| start <= j < i ==> path@[j] != '/',
            start == 0 ==> forall|j: int| 0 <= j < i ==> path@[j] != '/',
        decreases n - i,
    {
        if path.get_char(i) == '/' {
            start = i + 1;
        }
        i = i + 1;
    }
    proof {
        if start > 0 {
            lemma_last_pos(path@, '/', 0, start - 1);
        } else {
            assert(!has_char_from(path@, '/', 0));
        }
        assert(path@.skip(start as int).len() == n - start);
    }
    let ghost base = path@.skip(start as int);
    if start == n {
        return None;
    }
    let mut end: usize = n;
    let mut k: usize = start + 1;
    while k < n
        invariant
            start < k <= n,
            n == path@.len(),
            base == path@.skip(start as int),
            end == n || (start < end < n && path@[end as int] == '.' && forall|j: int|
                end < j < k ==> path@[j] != '.'),
            end == n ==> forall|j: int| start < j < k ==> path@[j] != '.',
        decreases n - k,
    {
        if path.get_char(k) == '.' {
            end = k;
        }
        k = k + 1;
    }
    proof {
        assert(forall|x: int| 0 <= x < base.len() ==> base[x] == path@[start + x]);
        if end < n {
            lemma_last_pos(base, '.', 1, end - start);
        } else {
            assert(!has_char_from(base, '.', 1)) by {
                if has_char_from(base, '.', 1) {
                    let x = choose|x: int| 1 <= x < base.len() && base[x] == '.';
                    assert(path@[start + x] == '.');
                }
            }
        }
    }
    let stem = path.substring_char(start, end);
    proof {
        assert(path@.subrange(start as int, end as int) =~= base.take(end - start));
        if end == n {
            assert(base.take(end - start) =~= base);
        }
    }
    Some(stem.to_owned())
}

} // verus!
