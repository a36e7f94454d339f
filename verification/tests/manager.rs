use hydrogen_i18n::language::Language;
use hydrogen_i18n::metadata::MetadataBuilder;
use hydrogen_i18n::multilanguage::get_language_from_file;
use hydrogen_i18n::multilanguage::Multilanguage;

const EN: &str = "[_metadata]\n\
code = \"en\"\n\
name = \"English\"\n\
\n\
[greet]\n\
hi = \"Hello, {name}!\"\n\
bye = \"Goodbye\"\n";

const PT: &str = "[_metadata]\n\
code = \"pt\"\n\
name = \"Português\"\n\
\n\
[greet]\n\
hi = \"Olá, {name}!\"\n";

const PT_BR_LINK: &str = "[_metadata]\n\
code = \"pt-br\"\n\
link = \"pt\"\n";

fn manager() -> Multilanguage {
    let mut ml = Multilanguage::new(Language::load_str(EN).unwrap());
    assert!(ml.load_str(PT));
    assert!(ml.load_str(PT_BR_LINK));
    ml
}

#[test]
fn manager_translates_with_link_and_default_fallback() {
    let ml = manager();

    assert_eq!(ml.translate("pt", "greet", "hi"), "Olá, {name}!");
    assert_eq!(ml.translate("pt-br", "greet", "hi"), "Olá, {name}!");
    assert_eq!(ml.translate("pt", "greet", "bye"), "Goodbye");
    assert_eq!(ml.translate("de", "greet", "bye"), "Goodbye");
    assert_eq!(ml.translate("de", "greet", "nope"), "greet.nope");
}

#[test]
fn manager_translate_with_applies_arguments() {
    let ml = manager();
    let args = vec![(String::from("name"), String::from("Nashira"))];

    assert_eq!(ml.translate_with("pt", "greet", "hi", &args), "Olá, Nashira!");
    assert_eq!(ml.translate_with("de", "greet", "hi", &args), "Hello, Nashira!");
}

#[test]
fn manager_add_language_requires_a_code() {
    let mut ml = Multilanguage::new(Language::new());
    assert!(ml.add_language(Language::load_str(PT).unwrap()));
    assert!(!ml.add_language(Language::load_str("[greet]\nhi = \"anon\"\n").unwrap()));
    assert_eq!(ml.cache.len(), 1);
}

#[test]
fn manager_load_str_needs_a_name() {
    let mut ml = Multilanguage::new(Language::new());
    assert!(!ml.load_str("[greet]\nhi = \"anon\"\n"));
    assert!(!ml.load_str("not toml at all ==="));
    assert!(ml.load_str_named(
        String::from("[greet]\nhi = \"named by the file\"\n").as_str(),
        Some(String::from("fallback")),
    ));
    assert_eq!(ml.translate("fallback", "greet", "hi"), "named by the file");
}

#[test]
fn manager_set_default_language_resolves_links() {
    let mut ml = manager();
    ml.set_default_language("pt-br");

    assert_eq!(ml.translate("de", "greet", "hi"), "Olá, {name}!");
}

#[test]
fn manager_cleanup_links_drops_dangling_links() {
    let mut ml = manager();
    assert!(ml.load_str("[_metadata]\ncode = \"xx\"\nlink = \"nowhere\"\n"));
    assert_eq!(ml.links.len(), 2);

    ml.cleanup_links();

    assert_eq!(ml.links.len(), 1);
    assert_eq!(ml.translate("pt-br", "greet", "hi"), "Olá, {name}!");
}

#[test]
fn metadata_builder_reads_the_metadata_table() {
    let builder = MetadataBuilder::load_str(EN).unwrap();
    assert!(builder.file().is_none());
    let metadata = builder.metadata().unwrap();
    assert_eq!(metadata.code(), Some("en"));
    assert_eq!(metadata.name(), Some("English"));
    assert!(metadata.is_language());

    let linked = MetadataBuilder::load_str(PT_BR_LINK).unwrap();
    let metadata = linked.build().unwrap();
    assert_eq!(metadata.link(), Some("pt"));
    assert!(metadata.is_link());

    assert!(MetadataBuilder::load_str("[greet]\nhi = \"no metadata\"\n")
        .unwrap()
        .build()
        .is_none());
    assert!(MetadataBuilder::load_str("broken = ").is_none());
}

#[test]
fn metadata_builder_remembers_the_file() {
    let builder = MetadataBuilder::load_str_from(EN, "lang/en.toml").unwrap();
    assert_eq!(builder.file(), Some("lang/en.toml"));
}

#[test]
fn language_name_comes_from_the_file_stem() {
    assert_eq!(
        get_language_from_file("tests/data/english/en-US.toml"),
        Some(String::from("en-US"))
    );
    assert_eq!(get_language_from_file("pt.json"), Some(String::from("pt")));
    assert_eq!(get_language_from_file("dir/a.b.c"), Some(String::from("a.b")));
    assert_eq!(get_language_from_file(".bashrc"), Some(String::from(".bashrc")));
    assert_eq!(get_language_from_file("dir/"), None);
    assert_eq!(get_language_from_file(""), None);
}
