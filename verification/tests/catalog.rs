use hydrogen_i18n::builders::I18nBuilder;
use hydrogen_i18n::Dict;
use hydrogen_i18n::Error;
use hydrogen_i18n::I18n;
use hydrogen_i18n::Language;

fn scenario() -> I18n {
    I18nBuilder::new("en")
        .add_from_str("en", "{\"greet\":{\"hi\":\"Hello\"}}")
        .unwrap()
        .add_from_str("fr", "{\"greet\":{\"hi\":\"Bonjour\",\"bye\":\"Au revoir\"}}")
        .unwrap()
        .add_from_str("en-ca", "_link:en")
        .unwrap()
        .build()
        .unwrap()
}

#[test]
fn scenario_translations_fall_back_deterministically() {
    let i18n = scenario();

    assert_eq!(i18n.translate("fr", "greet", "hi"), "Bonjour");
    assert_eq!(i18n.translate("en-ca", "greet", "hi"), "Hello");
    assert_eq!(i18n.translate("de", "greet", "hi"), "Hello");
    assert_eq!(i18n.translate("fr", "greet", "nope"), "greet.nope");
}

#[test]
fn link_resolution_is_one_hop_only() {
    let mut i18n = I18n::new();
    let mut categories: Dict<String> = Dict::new();
    categories.insert(String::from("k"), String::from("end of chain"));
    let mut data: Dict<Dict<String>> = Dict::new();
    data.insert(String::from("cat"), categories);

    i18n.languages
        .insert(String::from("a"), Language::Link(String::from("b")));
    i18n.languages
        .insert(String::from("b"), Language::Link(String::from("c")));
    i18n.languages
        .insert(String::from("c"), Language::Data(data));

    assert!(i18n.get_language("a").is_none());
    assert!(i18n.get_language("b").is_some());
    assert!(i18n.get_language("c").is_some());
    assert_eq!(i18n.translate("a", "cat", "k"), "cat.k");
    assert_eq!(i18n.translate("c", "cat", "k"), "end of chain");
}

#[test]
fn dangling_link_is_dropped_at_build_time() {
    let i18n = I18nBuilder::new("en")
        .add_from_str("en", "{\"greet\":{\"hi\":\"Hello\"}}")
        .unwrap()
        .add_from_str("ghost", "_link:nowhere")
        .unwrap()
        .add_from_str("hop", "_link:ghost")
        .unwrap()
        .build()
        .unwrap();

    assert!(i18n.get_language("ghost").is_none());
    assert!(i18n.get_language("hop").is_none());
    assert_eq!(i18n.translate("ghost", "greet", "hi"), "Hello");
}

#[test]
fn build_deduplicates_against_the_default() {
    let i18n = I18nBuilder::new("en")
        .add_from_str("en", "{\"a\":{\"x\":\"same\",\"y\":\"one\"},\"b\":{\"z\":\"gone\"}}")
        .unwrap()
        .add_from_str("de", "{\"a\":{\"x\":\"same\",\"y\":\"two\"},\"b\":{\"z\":\"gone\"}}")
        .unwrap()
        .build()
        .unwrap();

    let de = i18n.get_language("de").unwrap();
    let a = de.get(&String::from("a")).unwrap();
    assert!(a.get(&String::from("x")).is_none());
    assert_eq!(a.get(&String::from("y")), Some(&String::from("two")));
    assert!(de.get(&String::from("b")).is_none());

    assert_eq!(i18n.translate("de", "a", "x"), "same");
    assert_eq!(i18n.translate("de", "a", "y"), "two");
    assert_eq!(i18n.translate("de", "b", "z"), "gone");
}

#[test]
fn build_without_the_default_language_fails() {
    let err = I18nBuilder::new("en")
        .add_from_str("fr", "{\"greet\":{\"hi\":\"Bonjour\"}}")
        .unwrap()
        .build()
        .unwrap_err();

    assert!(matches!(err, Error::LanguageNotFound(name) if name == "en"));
}

#[test]
fn malformed_payloads_are_rejected_as_json_errors() {
    let err = I18nBuilder::new("en")
        .add_from_str("en", "this is not json")
        .unwrap_err();
    assert!(matches!(err, Error::Json));

    let err = I18nBuilder::new("en")
        .add_from_str("en", "{\"greet\":\"flat, not nested\"}")
        .unwrap_err();
    assert!(matches!(err, Error::Json));
}

#[test]
fn slices_follow_the_same_sentinel_rules() {
    let i18n = I18nBuilder::new("en")
        .add_from_slice("en", b"{\"greet\":{\"hi\":\"Hello\"}}")
        .unwrap()
        .add_from_slice("ja", "{\"greet\":{\"hi\":\"\u{3053}\u{3093}\u{306b}\u{3061}\u{306f}\"}}".as_bytes())
        .unwrap()
        .add_from_slice("en-au", b"_link:en")
        .unwrap()
        .build()
        .unwrap();

    assert_eq!(i18n.translate("ja", "greet", "hi"), "こんにちは");
    assert_eq!(i18n.translate("en-au", "greet", "hi"), "Hello");
}

#[test]
fn short_slices_cannot_be_links() {
    let err = I18nBuilder::new("en").add_from_slice("en", b"_l").unwrap_err();
    assert!(matches!(err, Error::Json));

    let ok = I18nBuilder::new("en").add_from_slice("en", b"{}").unwrap();
    let _ = ok;
}

#[test]
fn link_target_must_be_utf8() {
    let err = I18nBuilder::new("en")
        .add_from_slice("x", b"_link:\xff\xfe")
        .unwrap_err();
    assert!(matches!(err, Error::Utf8));
}

#[test]
fn multibyte_link_targets_round_trip() {
    let mut i18n = I18n::new();
    i18n.from_str("日本語", "{\"greet\":{\"hi\":\"やあ\"}}", false, false)
        .unwrap();
    i18n.from_slice("ja", "_link:日本語".as_bytes(), true, false)
        .unwrap();

    assert_eq!(i18n.translate("ja", "greet", "hi"), "やあ");
}

#[test]
fn from_str_checks_links_on_request() {
    let mut i18n = I18n::new();
    let err = i18n
        .from_str("en-ca", "_link:en", true, false)
        .unwrap_err();
    assert!(matches!(err, Error::LanguageNotFound(name) if name == "en"));

    i18n.from_str("en-ca", "_link:en", false, false).unwrap();
    assert!(i18n.get_language("en-ca").is_none());
}

#[test]
fn from_str_deduplicates_on_request() {
    let mut i18n = I18n::new();
    i18n.default
        .insert(String::from("a"), {
            let mut cat: Dict<String> = Dict::new();
            cat.insert(String::from("x"), String::from("same"));
            cat
        });

    i18n.from_str("de", "{\"a\":{\"x\":\"same\",\"y\":\"extra\"}}", false, true)
        .unwrap();

    let de = i18n.get_language("de").unwrap();
    let a = de.get(&String::from("a")).unwrap();
    assert!(a.get(&String::from("x")).is_none());
    assert_eq!(a.get(&String::from("y")), Some(&String::from("extra")));
}

#[test]
fn set_default_moves_or_copies_a_language() {
    let mut i18n = I18n::new();
    i18n.from_str("en", "{\"greet\":{\"hi\":\"Hello\"}}", false, false)
        .unwrap();
    i18n.from_str("fr", "{\"greet\":{\"hi\":\"Bonjour\"}}", false, false)
        .unwrap();
    i18n.from_str("en-ca", "_link:en", false, false).unwrap();

    assert!(!i18n.set_default("missing", false));
    assert!(!i18n.set_default("en-ca", false));

    assert!(i18n.set_default("en", false));
    assert!(i18n.get_language("en").is_some());
    assert_eq!(i18n.translate_default("greet", "hi"), "Hello");

    assert!(i18n.set_default("fr", true));
    assert!(i18n.get_language("fr").is_none());
    assert_eq!(i18n.translate_default("greet", "hi"), "Bonjour");
}

#[test]
fn cleanup_links_removes_dangling_and_chained_links() {
    let mut i18n = I18n::new();
    i18n.from_str("en", "{\"greet\":{\"hi\":\"Hello\"}}", false, false)
        .unwrap();
    i18n.from_str("ok", "_link:en", false, false).unwrap();
    i18n.from_str("dangling", "_link:nowhere", false, false).unwrap();
    i18n.from_str("chained", "_link:ok", false, false).unwrap();

    i18n.cleanup_links();

    assert!(i18n.get_language("ok").is_some());
    assert!(i18n.languages.get(&String::from("dangling")).is_none());
    assert!(i18n.languages.get(&String::from("chained")).is_none());
}

#[test]
fn deduplicate_all_strips_copies_of_the_default() {
    let mut i18n = I18n::new();
    i18n.default.insert(String::from("a"), {
        let mut cat: Dict<String> = Dict::new();
        cat.insert(String::from("x"), String::from("same"));
        cat
    });
    i18n.from_str("de", "{\"a\":{\"x\":\"same\",\"y\":\"two\"}}", false, false)
        .unwrap();
    i18n.from_str("de-at", "_link:de", false, false).unwrap();

    i18n.deduplicate_all();

    let de = i18n.get_language("de").unwrap();
    let a = de.get(&String::from("a")).unwrap();
    assert!(a.get(&String::from("x")).is_none());
    assert_eq!(a.get(&String::from("y")), Some(&String::from("two")));
    assert!(i18n.languages.get(&String::from("de-at")).is_some());
}

#[test]
fn translate_all_visits_each_language_once() {
    let i18n = I18nBuilder::new("en")
        .add_from_str("en", "{\"greet\":{\"hi\":\"Hello\"}}")
        .unwrap()
        .add_from_str("fr", "{\"greet\":{\"hi\":\"Bonjour\"}}")
        .unwrap()
        .add_from_str("es", "{\"greet\":{\"hi\":\"Hola\"}}")
        .unwrap()
        .add_from_str("es-mx", "_link:es")
        .unwrap()
        .add_from_str("silent", "{\"other\":{\"k\":\"v\"}}")
        .unwrap()
        .build()
        .unwrap();

    let mut iter = i18n.translate_all("greet", "hi");
    let mut seen: Vec<(String, String)> = Vec::new();
    while let Some(pair) = iter.next() {
        seen.push(pair);
    }

    assert_eq!(
        seen,
        vec![
            (String::from("fr"), String::from("Bonjour")),
            (String::from("es"), String::from("Hola")),
            (String::from("es-mx"), String::from("Hola")),
        ]
    );
}

#[test]
fn builder_accessors_and_removals() {
    let builder = I18nBuilder::new("en")
        .add_from_str("fr", "{\"greet\":{\"hi\":\"Bonjour\"}}")
        .unwrap()
        .add_link("fr-ca", "fr")
        .add_link("stale", "fr");

    assert_eq!(builder.get_default_language(), "en");
    assert_eq!(builder.get_languages().len(), 1);
    assert_eq!(builder.get_links().len(), 2);

    let builder = builder
        .remove_link("stale")
        .set_default_language("fr")
        .add_language("fr", Dict::new());
    assert_eq!(builder.get_links().len(), 1);
    assert_eq!(builder.get_default_language(), "fr");

    let builder = builder.clear_links().clear_languages();
    assert_eq!(builder.get_links().len(), 0);
    assert_eq!(builder.get_languages().len(), 0);

    let builder = builder.remove_language("fr");
    assert!(builder.build().is_err());
}

#[test]
fn literal_language_wins_over_a_link_of_the_same_name() {
    let i18n = I18nBuilder::new("en")
        .add_from_str("en", "{\"greet\":{\"hi\":\"Hello\"}}")
        .unwrap()
        .add_from_str("fr", "{\"greet\":{\"hi\":\"Bonjour\"}}")
        .unwrap()
        .add_from_str("es", "{\"greet\":{\"hi\":\"Hola\"}}")
        .unwrap()
        .add_link("es", "fr")
        .build()
        .unwrap();

    assert_eq!(i18n.translate("es", "greet", "hi"), "Hola");
}

#[test]
fn translate_all_skips_unresolvable_links() {
    let mut i18n = I18n::new();
    i18n.from_str("en", "{\"greet\":{\"hi\":\"Hello\"}}", false, false)
        .unwrap();
    i18n.from_str("a", "_link:b", false, false).unwrap();
    i18n.from_str("b", "_link:en", false, false).unwrap();
    i18n.from_str("c", "_link:missing", false, false).unwrap();

    let mut iter = i18n.translate_all("greet", "hi");
    let mut seen: Vec<(String, String)> = Vec::new();
    while let Some(pair) = iter.next() {
        seen.push(pair);
    }
    assert_eq!(
        seen,
        vec![
            (String::from("en"), String::from("Hello")),
            (String::from("b"), String::from("Hello")),
        ]
    );

    let mut restarted = i18n.translate_all("greet", "hi");
    assert_eq!(
        restarted.next(),
        Some((String::from("en"), String::from("Hello")))
    );
}

#[test]
fn link_under_the_default_name_is_materialized() {
    let i18n = I18nBuilder::new("en")
        .add_from_str("en", "{\"greet\":{\"hi\":\"Hello\"}}")
        .unwrap()
        .add_from_str("fr", "{\"greet\":{\"hi\":\"Bonjour\"}}")
        .unwrap()
        .add_link("en", "fr")
        .build()
        .unwrap();

    assert_eq!(i18n.translate("en", "greet", "hi"), "Bonjour");
    assert_eq!(i18n.translate_default("greet", "hi"), "Hello");
}
