//! Metadata carried inside a language file: the language's code, its name
//! in the language itself, and an optional link to another language.

use vstd::prelude::*;

use crate::Category;
use crate::CategoryView;

verus! {

/// The view of a [`Metadata`]: each field as an optional character
/// sequence.
pub struct MetaView {
    pub code: Option<Seq<char>>,
    pub name: Option<Seq<char>>,
    pub link: Option<Seq<char>>,
}

/// Metadata for the language file.
#[derive(Debug, Clone)]
pub struct Metadata {
    /// The language code.
    code: Option<String>,
    /// The language name in the language itself.
    name: Option<String>,
    /// Is some if this language is a link to another one.
    link: Option<String>,
}

impl View for Metadata {
    type V = MetaView;

    closed spec fn view(&self) -> MetaView {
        MetaView {
            code: match self.code {
                Some(ref s) => Some(s@),
                None => None,
            },
            name: match self.name {
                Some(ref s) => Some(s@),
                None => None,
            },
            link: match self.link {
                Some(ref s) => Some(s@),
                None => None,
            },
        }
    }
}

/// The metadata denoted by a `_metadata` category: its `code`, `name` and
/// `link` keys, where present.
pub open spec fn meta_of_category(cat: CategoryView) -> MetaView {
    MetaView {
        code: if cat.dom().contains("code"@) {
            Some(cat["code"@])
        } else {
            None
        },
        name: if cat.dom().contains("name"@) {
            Some(cat["name"@])
        } else {
            None
        },
        link: if cat.dom().contains("link"@) {
            Some(cat["link"@])
        } else {
            None
        },
    }
}

/// Metadata with every field absent.
pub open spec fn meta_empty() -> MetaView {
    MetaView { code: None, name: None, link: None }
}

impl Metadata {
    /// Create a new empty metadata.
    pub fn new() -> (r: Self)
        ensures
            r@ == meta_empty(),
    {
        Metadata { code: None, name: None, link: None }
    }

    /// Reads the metadata out of a `_metadata` category: the values under
    /// the `code`, `name` and `link` keys.
    pub fn from_map(map: &Category) -> (r: Self)
        requires
            map.wf(),
        ensures
            r@ == meta_of_category(map@),
    {
        Metadata {
            code: get_cloned(map, "code"),
            name: get_cloned(map, "name"),
            link: get_cloned(map, "link"),
        }
    }

    /// Get the language code.
    pub fn code(&self) -> (r: Option<&str>)
        ensures
            r is Some <==> self@.code is Some,
            r matches Some(s) ==> Some(s@) == self@.code,
    {
        match &self.code {
            Some(s) => Some(s.as_str()),
            None => None,
        }
    }

    /// Get the language name.
    pub fn name(&self) -> (r: Option<&str>)
        ensures
            r is Some <==> self@.name is Some,
            r matches Some(s) ==> Some(s@) == self@.name,
    {
        match &self.name {
            Some(s) => Some(s.as_str()),
            None => None,
        }
    }

    /// Get the language link.
    pub fn link(&self) -> (r: Option<&str>)
        ensures
            r is Some <==> self@.link is Some,
            r matches Some(s) ==> Some(s@) == self@.link,
    {
        match &self.link {
            Some(s) => Some(s.as_str()),
            None => None,
        }
    }

    /// Check if this language is a link to another one.
    pub fn is_link(&self) -> (r: bool)
        ensures
            r == (self@.link is Some),
    {
        self.link.is_some()
    }

    /// Check if this language is a language itself.
    pub fn is_language(&self) -> (r: bool)
        ensures
            r == (self@.link is None),
    {
        self.link.is_none()
    }

    /// Get the language code and name, when both are present.
    pub fn code_and_name(&self) -> (r: Option<(&str, &str)>)
        ensures
            r is Some <==> (self@.code is Some && self@.name is Some),
            r matches Some(p) ==> Some(p.0@) == self@.code && Some(p.1@) == self@.name,
    {
        match (self.code(), self.name()) {
            (Some(code), Some(name)) => Some((code, name)),
            _ => None,
        }
    }

    /// An equal copy of this metadata.
    pub fn duplicate(&self) -> (r: Self)
        ensures
            r@ == self@,
    {
        Metadata {
            code: clone_opt(&self.code),
            name: clone_opt(&self.name),
            link: clone_opt(&self.link),
        }
    }
}

impl Default for Metadata {
    /// Metadata with every field absent.
    fn default() -> (r: Self)
        ensures
            r@ == meta_empty(),
    {
        Metadata::new()
    }
}

/// The value stored under `key`, cloned.
fn get_cloned(map: &Category, key: &str) -> (r: Option<String>)
    requires
        map.wf(),
    ensures
        r is Some <==> map@.dom().contains(key@),
        r matches Some(v) ==> v@ == map@[key@],
{
    match map.get(&key.to_owned()) {
        Some(v) => Some(v.clone()),
        None => None,
    }
}

/// An equal copy of an optional string.
fn clone_opt(s: &Option<String>) -> (r: Option<String>)
    ensures
        r == s,
{
    match s {
        Some(v) => Some(v.clone()),
        None => None,
    }
}

/// Metadata builder: the metadata found inside a language file, with the
/// path the file was read from when one is known.
#[derive(Debug)]
pub struct MetadataBuilder {
    /// The metadata found inside the language file, if any.
    metadata: Option<Metadata>,
    /// The path to the language file, when the builder was filled from a
    /// file.
    file: Option<String>,
}

impl View for MetadataBuilder {
    type V = (Option<MetaView>, Option<Seq<char>>);

    closed spec fn view(&self) -> (Option<MetaView>, Option<Seq<char>>) {
        (
            match self.metadata {
                Some(ref m) => Some(m@),
                None => None,
            },
            match self.file {
                Some(ref f) => Some(f@),
                None => None,
            },
        )
    }
}

impl MetadataBuilder {
    /// Builds the metadata from the builder.
    pub fn build(self) -> (r: Option<Metadata>)
        ensures
            r is Some <==> self@.0 is Some,
            r matches Some(m) ==> Some(m@) == self@.0,
    {
        self.metadata
    }

    /// Gets the metadata from the builder.
    pub fn metadata(&self) -> (r: Option<&Metadata>)
        ensures
            r is Some <==> self@.0 is Some,
            r matches Some(m) ==> Some(m@) == self@.0,
    {
        self.metadata.as_ref()
    }

    /// Gets the path to the language file.
    pub fn file(&self) -> (r: Option<&str>)
        ensures
            r is Some <==> self@.1 is Some,
            r matches Some(f) ==> Some(f@) == self@.1,
    {
        match &self.file {
            Some(f) => Some(f.as_str()),
            None => None,
        }
    }

    /// Parses the metadata from a string: the payload is parsed as a
    /// two-level table of strings, and its `_metadata` table, if present,
    /// becomes the metadata.
    pub fn load_str(s: &str) -> (r: Option<Self>)
        ensures
            r is Some <==> crate::language::toml_tables(s@) is Some,
            r matches Some(b) ==> b@.1 is None && (match crate::language::toml_tables(s@)->0 {
                tables => {
                    if tables.dom().contains("_metadata"@) {
                        b@.0 == Some(meta_of_category(tables["_metadata"@]))
                    } else {
                        b@.0 is None
                    }
                },
            }),
    {
        let parsed = match crate::language::parse_toml_tables(s) {
            Some(d) => d,
            None => {
                return None;
            },
        };
        let metadata = match parsed.get(&String::from_str("_metadata")) {
            Some(cat) => {
                proof {
                    let i = choose|i: int|
                        0 <= i < parsed.entries().len() && parsed.entries()[i].0@ == "_metadata"@
                            && *cat == parsed.entries()[i].1;
                    assert(cat.wf());
                }
                Some(Metadata::from_map(cat))
            },
            None => None,
        };
        Some(MetadataBuilder { metadata, file: None })
    }

    /// Fills a builder from a payload that was read from a file: as
    /// [`MetadataBuilder::load_str`], remembering the path.
    pub fn load_str_from(s: &str, path: &str) -> (r: Option<Self>)
        ensures
            r is Some <==> crate::language::toml_tables(s@) is Some,
            r matches Some(b) ==> b@.1 == Some(path@) && (match crate::language::toml_tables(
                s@,
            )->0 {
                tables => {
                    if tables.dom().contains("_metadata"@) {
                        b@.0 == Some(meta_of_category(tables["_metadata"@]))
                    } else {
                        b@.0 is None
                    }
                },
            }),
    {
        match MetadataBuilder::load_str(s) {
            Some(b) => Some(MetadataBuilder { metadata: b.metadata, file: Some(path.to_owned()) }),
            None => None,
        }
    }
}

} // verus!
