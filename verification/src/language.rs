//! A single language file with its metadata, parsed from a TOML document of
//! tables of strings. The `_metadata` table is split off into [`Metadata`].

use vstd::prelude::*;

use crate::dict::Dict;
use crate::data_wf;
use crate::lookup_spec;
use crate::metadata::meta_empty;
use crate::metadata::meta_of_category;
use crate::metadata::Metadata;
use crate::metadata::MetaView;
use crate::strutil::apply_args;
use crate::strutil::apply_args_str;
use crate::strutil::placeholder;
use crate::strutil::placeholder_view;
use crate::Category;
use crate::DataView;
use crate::LanguageData;

verus! {

/// What toml yields when a text payload is deserialized as a two-level
/// table of strings: `Some` exactly on TOML documents of that shape, and
/// then the table → key → value mapping the document denotes.
pub uninterp spec fn toml_tables(s: Seq<char>) -> Option<DataView>;

/// Relies on `toml::from_str::<BTreeMap<String, BTreeMap<String,
/// String>>>`: it succeeds exactly on TOML documents denoting a two-level
/// table of strings, and a `BTreeMap` holds each key once.
#[verifier::external_body]
pub(crate) fn parse_toml_tables(s: &str) -> (r: Option<LanguageData>)
    ensures
        r is Some <==> toml_tables(s@) is Some,
        r matches Some(d) ==> data_wf(d) && Some(d@) == toml_tables(s@),
{
    let parsed: std::collections::BTreeMap<String, std::collections::BTreeMap<String, String>> =
        toml::from_str(s).ok()?;
    let mut items = Vec::new();
    for (name, table) in parsed {
        let pairs: Vec<(String, String)> = table.into_iter().collect();
        items.push((name, Dict { items: pairs }));
    }
    Some(Dict { items })
}

/// The view of a [`Language`]: its translations and its metadata.
pub struct LanguageView {
    pub data: DataView,
    pub metadata: MetaView,
}

/// A single language file with its metadata.
#[derive(Debug, Clone)]
pub struct Language {
    /// Internal data for the language.
    data: LanguageData,
    /// Metadata for the language.
    metadata: Metadata,
}

impl View for Language {
    type V = LanguageView;

    closed spec fn view(&self) -> LanguageView {
        LanguageView { data: self.data@, metadata: self.metadata@ }
    }
}

/// The metadata a parsed document denotes: the `_metadata` table's fields,
/// or empty metadata when there is no such table.
pub open spec fn meta_of_tables(tables: DataView) -> MetaView {
    if tables.dom().contains("_metadata"@) {
        meta_of_category(tables["_metadata"@])
    } else {
        meta_empty()
    }
}

impl Language {
    /// Well-formed: the data map and every category in it have
    /// pairwise-distinct keys.
    pub closed spec fn wf(&self) -> bool {
        data_wf(self.data)
    }

    /// Create a new empty language.
    pub fn new() -> (r: Self)
        ensures
            r.wf(),
            r@.data =~= Map::<Seq<char>, crate::CategoryView>::empty(),
            r@.metadata == meta_empty(),
    {
        Language { data: Dict::new(), metadata: Metadata::new() }
    }

    /// Builds a language from parsed data: the `_metadata` table, if
    /// present, is removed from the data and becomes the metadata.
    pub fn from_data(data: LanguageData) -> (r: Self)
        requires
            data_wf(data),
        ensures
            r.wf(),
            r@.data =~= data@.remove("_metadata"@),
            r@.metadata == meta_of_tables(data@),
    {
        let mut data = data;
        let ghost entries0 = data.entries();
        let metadata = match data.remove(&String::from_str("_metadata")) {
            Some(cat) => {
                proof {
                    let i = choose|i: int|
                        0 <= i < entries0.len() && entries0[i].0@ == "_metadata"@ && cat
                            == entries0[i].1;
                    assert(cat.wf());
                }
                Metadata::from_map(&cat)
            },
            None => Metadata::new(),
        };
        Language { data, metadata }
    }

    /// Parse a language from a string.
    pub fn load_str(s: &str) -> (r: Option<Self>)
        ensures
            r is Some <==> toml_tables(s@) is Some,
            r matches Some(l) ==> l.wf() && l@.data =~= toml_tables(s@)->0.remove("_metadata"@)
                && l@.metadata == meta_of_tables(toml_tables(s@)->0),
    {
        match parse_toml_tables(s) {
            Some(data) => Some(Language::from_data(data)),
            None => None,
        }
    }

    /// Get a reference to a category.
    pub fn get(&self, category: &str) -> (r: Option<&Category>)
        requires
            self.wf(),
        ensures
            r is Some <==> self@.data.dom().contains(category@),
            r matches Some(c) ==> c@ == self@.data[category@] && c.wf(),
    {
        match self.data.get(&category.to_owned()) {
            Some(cat) => {
                proof {
                    let i = choose|i: int|
                        0 <= i < self.data.entries().len() && self.data.entries()[i].0@
                            == category@ && *cat == self.data.entries()[i].1;
                    assert(cat.wf());
                }
                Some(cat)
            },
            None => None,
        }
    }

    /// Get the translation value.
    pub fn get_translation(&self, category: &str, key: &str) -> (r: Option<&String>)
        requires
            self.wf(),
        ensures
            r is Some <==> lookup_spec(self@.data, category@, key@) is Some,
            r matches Some(v) ==> Some(v@) == lookup_spec(self@.data, category@, key@),
    {
        crate::resolve_translation(&self.data, &category.to_owned(), &key.to_owned())
    }

    /// Get the translation value, or the `category.key` placeholder when it
    /// is absent.
    pub fn translate(&self, category: &str, key: &str) -> (r: String)
        requires
            self.wf(),
        ensures
            r@ == (match lookup_spec(self@.data, category@, key@) {
                Some(v) => v,
                None => placeholder_view(category@, key@),
            }),
    {
        match self.get_translation(category, key) {
            Some(v) => v.clone(),
            None => placeholder(category, key),
        }
    }

    /// Get the translation value with arguments: every occurrence of
    /// `{key}` in the translation is replaced by the argument's value, in
    /// argument order.
    pub fn translate_with(&self, category: &str, key: &str, args: &Vec<(String, String)>) -> (r:
        String)
        requires
            self.wf(),
        ensures
            r@ == apply_args(
                match lookup_spec(self@.data, category@, key@) {
                    Some(v) => v,
                    None => placeholder_view(category@, key@),
                },
                args@,
            ),
    {
        apply_args_str(self.translate(category, key), args)
    }

    /// Get the language metadata.
    pub fn metadata(&self) -> (r: &Metadata)
        ensures
            r@ == self@.metadata,
    {
        &self.metadata
    }

    /// An equal copy of this language.
    pub fn duplicate(&self) -> (r: Self)
        requires
            self.wf(),
        ensures
            r.wf(),
            r@.data =~= self@.data,
            r@.metadata == self@.metadata,
    {
        Language { data: crate::clone_data(&self.data), metadata: self.metadata.duplicate() }
    }
}

impl Default for Language {
    /// An empty language without metadata.
    fn default() -> (r: Self)
        ensures
            r.wf(),
            r@.data =~= Map::<Seq<char>, crate::CategoryView>::empty(),
            r@.metadata == meta_empty(),
    {
        Language::new()
    }
}

} // verus!
