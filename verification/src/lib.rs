//! In-memory catalog of translated strings, organized by language, category
//! and key, with link indirection between languages and a default language
//! used as fallback for missing translations.

use vstd::prelude::*;

mod dict;

use dict::lemma_assoc_props;
use dict::seq_assoc;

pub mod builders;
pub mod i18n;
pub mod language;
pub mod metadata;
pub mod multilanguage;
pub mod parsers;
pub mod strutil;

pub use dict::Dict;
pub use i18n::I18n;
pub use i18n::Iter;

verus! {

/// A category maps translation keys to translated strings.
pub type Category = Dict<String>;

/// A language's data maps category names to categories.
pub type LanguageData = Dict<Category>;

/// The view of a category: translation keys to translated strings.
pub type CategoryView = Map<Seq<char>, Seq<char>>;

/// The view of a language's data: category names to category views.
pub type DataView = Map<Seq<char>, CategoryView>;

/// A managed language: either its own data, or a link to another language,
/// by name.
#[derive(Debug, Clone)]
pub enum Language {
    /// An alias: this language resolves to the named language's data.
    Link(String),
    /// A language that owns its translations.
    Data(LanguageData),
}

/// The view of a [`Language`].
pub enum LangView {
    Link(Seq<char>),
    Data(DataView),
}

impl View for Language {
    type V = LangView;

    open spec fn view(&self) -> LangView {
        match self {
            Language::Link(target) => LangView::Link(target@),
            Language::Data(data) => LangView::Data(data@),
        }
    }
}

/// Well-formed language data: the category map and every category in it
/// have pairwise-distinct keys.
pub open spec fn data_wf(data: LanguageData) -> bool {
    &&& data.wf()
    &&& forall|i: int| 0 <= i < data.entries().len() ==> (#[trigger] data.entries()[i].1).wf()
}

/// Well-formed language: link targets carry no data, and owned data is
/// well-formed.
pub open spec fn lang_wf(lang: Language) -> bool {
    match lang {
        Language::Link(_) => true,
        Language::Data(data) => data_wf(data),
    }
}

/// The value stored at (category, key), if any.
pub open spec fn lookup_spec(data: DataView, category: Seq<char>, key: Seq<char>) -> Option<
    Seq<char>,
> {
    if data.dom().contains(category) && data[category].dom().contains(key) {
        Some(data[category][key])
    } else {
        None
    }
}

/// One category after deduplication against the default language: every
/// key whose value is equal to the default's value at the same
/// (category, key) is dropped.
pub open spec fn dedup_category(
    default: DataView,
    category: Seq<char>,
    cat: CategoryView,
) -> CategoryView {
    Map::new(
        |k: Seq<char>| cat.dom().contains(k) && lookup_spec(default, category, k) != Some(cat[k]),
        |k: Seq<char>| cat[k],
    )
}

/// True when a category keeps at least one key after deduplication; a
/// category left with zero keys is deleted entirely.
pub open spec fn category_survives(default: DataView, category: Seq<char>, cat: CategoryView) -> bool {
    exists|k: Seq<char>|
        cat.dom().contains(k) && lookup_spec(default, category, k) != Some(cat[k])
}

/// A language's data after deduplication against the default language.
pub open spec fn dedup_data(default: DataView, data: DataView) -> DataView {
    Map::new(
        |c: Seq<char>| data.dom().contains(c) && category_survives(default, c, data[c]),
        |c: Seq<char>| dedup_category(default, c, data[c]),
    )
}

/// Looks (category, key) up in well-formed language data, returning a
/// reference to the stored translation.
pub fn resolve_translation<'a>(data: &'a LanguageData, category: &String, key: &String) -> (r:
    Option<&'a String>)
    requires
        data_wf(*data),
    ensures
        r is Some <==> lookup_spec(data@, category@, key@) is Some,
        r matches Some(v) ==> Some(v@) == lookup_spec(data@, category@, key@),
{
    match data.get(category) {
        None => None,
        Some(cat) => {
            proof {
                let i = choose|i: int|
                    0 <= i < data.entries().len() && data.entries()[i].0@ == category@ && *cat
                        == data.entries()[i].1;
                assert(cat.wf());
            }
            cat.get(key)
        },
    }
}

/// One category deduplicated against the default language's data.
fn dedup_category_exec(default: &LanguageData, category: &String, cat: &Category) -> (r: Category)
    requires
        data_wf(*default),
        cat.wf(),
    ensures
        r.wf(),
        r@ =~= dedup_category(default@, category@, cat@),
{
    let mut out: Category = Dict::new();
    let n = cat.len();
    let mut i: usize = 0;
    while i < n
        invariant
            i <= n,
            n == cat.entries().len(),
            cat.wf(),
            data_wf(*default),
            out.wf(),
            out@ =~= dedup_category(default@, category@, seq_assoc(cat.entries().take(i as int))),
        decreases n - i,
    {
        let entry = cat.entry_at(i);
        let keep = match resolve_translation(default, category, &entry.0) {
            Some(default_translation) => !(*default_translation == entry.1),
            None => true,
        };
        proof {
            assert(cat.entries().take(i + 1).drop_last() =~= cat.entries().take(i as int));
            assert(cat.entries().take(i + 1).last() == cat.entries()[i as int]);
            crate::dict::lemma_distinct_take(cat.entries(), i as int);
            lemma_assoc_props(cat.entries().take(i as int));
        }
        let ghost prev = seq_assoc(cat.entries().take(i as int));
        let ghost cur = seq_assoc(cat.entries().take(i + 1));
        proof {
            assert(!prev.dom().contains(entry.0@));
            assert(cur =~= prev.insert(entry.0@, entry.1@));
        }
        if keep {
            out.insert(entry.0.clone(), entry.1.clone());
            proof {
                assert(dedup_category(default@, category@, cur) =~= dedup_category(
                    default@,
                    category@,
                    prev,
                ).insert(entry.0@, entry.1@));
            }
        } else {
            proof {
                assert(dedup_category(default@, category@, cur) =~= dedup_category(
                    default@,
                    category@,
                    prev,
                ));
            }
        }
        i = i + 1;
    }
    proof {
        assert(cat.entries().take(n as int) =~= cat.entries());
        cat.lemma_view_is_assoc();
    }
    out
}

/// A language's data deduplicated against the default language's data.
pub(crate) fn dedup_data_exec(default: &LanguageData, data: &LanguageData) -> (r: LanguageData)
    requires
        data_wf(*default),
        data_wf(*data),
    ensures
        data_wf(r),
        r@ =~= dedup_data(default@, data@),
{
    let mut out: LanguageData = Dict::new();
    let n = data.len();
    let mut i: usize = 0;
    while i < n
        invariant
            i <= n,
            n == data.entries().len(),
            data_wf(*data),
            data_wf(*default),
            out.wf(),
            forall|j: int| 0 <= j < out.entries().len() ==> (#[trigger] out.entries()[j].1).wf(),
            out@ =~= dedup_data(default@, seq_assoc(data.entries().take(i as int))),
        decreases n - i,
    {
        let entry = data.entry_at(i);
        proof {
            assert(entry.1.wf());
            assert(data.entries().take(i + 1).drop_last() =~= data.entries().take(i as int));
            assert(data.entries().take(i + 1).last() == data.entries()[i as int]);
            crate::dict::lemma_distinct_take(data.entries(), i as int);
            lemma_assoc_props(data.entries().take(i as int));
        }
        let ghost prev = seq_assoc(data.entries().take(i as int));
        let ghost cur = seq_assoc(data.entries().take(i + 1));
        proof {
            assert(!prev.dom().contains(entry.0@));
            assert(cur =~= prev.insert(entry.0@, entry.1@));
        }
        let deduped = dedup_category_exec(default, &entry.0, &entry.1);
        if deduped.is_empty() {
            proof {
                assert(!category_survives(default@, entry.0@, entry.1@)) by {
                    if category_survives(default@, entry.0@, entry.1@) {
                        let k = choose|k: Seq<char>|
                            entry.1@.dom().contains(k) && lookup_spec(default@, entry.0@, k)
                                != Some(entry.1@[k]);
                        assert(deduped@.dom().contains(k));
                        deduped.lemma_props();
                    }
                }
                assert(dedup_data(default@, cur) =~= dedup_data(default@, prev));
            }
        } else {
            proof {
                deduped.lemma_props();
                assert(deduped@.dom().contains(deduped.entries()[0].0@));
                assert(category_survives(default@, entry.0@, entry.1@));
                assert(dedup_data(default@, cur) =~= dedup_data(default@, prev).insert(
                    entry.0@,
                    dedup_category(default@, entry.0@, entry.1@),
                ));
            }
            out.insert(entry.0.clone(), deduped);
        }
        i = i + 1;
    }
    proof {
        assert(data.entries().take(n as int) =~= data.entries());
        data.lemma_view_is_assoc();
    }
    out
}

/// An equal copy of a category.
pub fn clone_category(cat: &Category) -> (r: Category)
    requires
        cat.wf(),
    ensures
        r.wf(),
        r@ =~= cat@,
{
    let mut out: Category = Dict::new();
    let n = cat.len();
    let mut i: usize = 0;
    while i < n
        invariant
            i <= n,
            n == cat.entries().len(),
            cat.wf(),
            out.wf(),
            out@ =~= seq_assoc(cat.entries().take(i as int)),
        decreases n - i,
    {
        let entry = cat.entry_at(i);
        proof {
            assert(cat.entries().take(i + 1).drop_last() =~= cat.entries().take(i as int));
            assert(cat.entries().take(i + 1).last() == cat.entries()[i as int]);
            dict::lemma_distinct_take(cat.entries(), i as int);
        }
        out.insert(entry.0.clone(), entry.1.clone());
        i = i + 1;
    }
    proof {
        assert(cat.entries().take(n as int) =~= cat.entries());
        cat.lemma_view_is_assoc();
    }
    out
}

/// An equal copy of a language's data.
pub fn clone_data(data: &LanguageData) -> (r: LanguageData)
    requires
        data_wf(*data),
    ensures
        data_wf(r),
        r@ =~= data@,
{
    let mut out: LanguageData = Dict::new();
    let n = data.len();
    let mut i: usize = 0;
    while i < n
        invariant
            i <= n,
            n == data.entries().len(),
            data_wf(*data),
            out.wf(),
            forall|j: int| 0 <= j < out.entries().len() ==> (#[trigger] out.entries()[j].1).wf(),
            out@ =~= seq_assoc(data.entries().take(i as int)),
        decreases n - i,
    {
        let entry = data.entry_at(i);
        proof {
            assert(entry.1.wf());
            assert(data.entries().take(i + 1).drop_last() =~= data.entries().take(i as int));
            assert(data.entries().take(i + 1).last() == data.entries()[i as int]);
            dict::lemma_distinct_take(data.entries(), i as int);
        }
        let copied = clone_category(&entry.1);
        out.insert(entry.0.clone(), copied);
        proof {
            assert(seq_assoc(data.entries().take(i + 1)) =~= seq_assoc(
                data.entries().take(i as int),
            ).insert(entry.0@, entry.1@));
        }
        i = i + 1;
    }
    proof {
        assert(data.entries().take(n as int) =~= data.entries());
        data.lemma_view_is_assoc();
    }
    out
}

/// Removes from `language` every translation that is equal to the default
/// translation at the same (category, key), then every category left
/// empty.
pub fn deduplicate_language(default: &LanguageData, language: &mut LanguageData)
    requires
        data_wf(*default),
        data_wf(*old(language)),
    ensures
        data_wf(*final(language)),
        final(language)@ =~= dedup_data(default@, old(language)@),
{
    let out = dedup_data_exec(default, language);
    *language = out;
}

/// Everything that can go wrong while assembling a catalog. The read path
/// never fails.
#[derive(Debug)]
pub enum Error {
    /// An I/O operation failed while a file or directory was read.
    Io,
    /// A language payload was not valid JSON of the expected shape.
    Json,
    /// A link target was not valid UTF-8.
    Utf8,
    /// A named language was missing: the default language at build time, or
    /// a link target that was checked on insertion.
    LanguageNotFound(String),
    /// A file's base name could not be derived or was not representable as
    /// text.
    InvalidFileName,
    /// A worker task running a parse terminated abnormally.
    Worker,
}

} // verus!
