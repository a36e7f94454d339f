use hydrogen_i18n::language::Language;

const EN_US: &str = "[_metadata]\n\
code = \"en-US\"\n\
name = \"English (United States)\"\n\
\n\
[hello]\n\
world = \"Hello, world!\"\n\
user = \"Hello, {name}!\"\n";

const PT_BR: &str = "[_metadata]\n\
code = \"pt-BR\"\n\
name = \"Português (Brasil)\"\n\
\n\
[hello]\n\
world = \"Olá, mundo!\"\n\
user = \"Olá, {name}!\"\n";

#[test]
pub fn test_language() {
    let en_language = Language::load_str(EN_US).unwrap();
    let en_metadata = en_language.metadata();

    let args = vec![(String::from("name"), String::from("Nashira Deer"))];

    assert_eq!(en_metadata.name(), Some("English (United States)"));
    assert_eq!(en_metadata.code(), Some("en-US"));

    assert_eq!(en_language.translate("hello", "world"), "Hello, world!");
    assert_eq!(en_language.translate("hello", "invalid"), "hello.invalid");
    assert_eq!(
        en_language.translate_with("hello", "user", &args),
        "Hello, Nashira Deer!"
    );

    let pt_language = Language::load_str(PT_BR).unwrap();
    let pt_metadata = pt_language.metadata();

    assert_eq!(pt_metadata.name(), Some("Português (Brasil)"));
    assert_eq!(pt_metadata.code(), Some("pt-BR"));

    assert_eq!(pt_language.translate("hello", "world"), "Olá, mundo!");
    assert_eq!(pt_language.translate("hello", "invalid"), "hello.invalid");
    assert_eq!(
        pt_language.translate_with("hello", "user", &args),
        "Olá, Nashira Deer!"
    );
}

#[test]
pub fn language_metadata_is_split_off_the_data() {
    let language = Language::load_str(EN_US).unwrap();

    assert!(language.get("_metadata").is_none());
    assert!(language.get("hello").is_some());
    assert!(!language.metadata().is_link());
    assert!(language.metadata().is_language());
    assert_eq!(
        language.metadata().code_and_name(),
        Some(("en-US", "English (United States)"))
    );
}

#[test]
pub fn language_load_str_rejects_bad_toml() {
    assert!(Language::load_str("not = valid = toml").is_none());
    assert!(Language::load_str("top = \"level value\"").is_none());
}

#[test]
pub fn language_translate_with_replaces_every_occurrence() {
    let language = Language::load_str(
        "[chat]\ngreet = \"{who} and {who} meet {other}\"\n",
    )
    .unwrap();
    let args = vec![
        (String::from("who"), String::from("Ada")),
        (String::from("other"), String::from("Grace")),
    ];

    assert_eq!(
        language.translate_with("chat", "greet", &args),
        "Ada and Ada meet Grace"
    );
}
