use mutemaanpa_lib::language::{
    LanguageFileDataSource, LanguageManifest, LanguagePack, PackError,
};
use mutemaanpa_lib::text::{LoadError, TextRepository};

fn empty_manifest(language: &str) -> LanguageManifest {
    LanguageManifest {
        fonts: Vec::new(),
        language: language.to_string(),
    }
}

fn pack(locale: &str, ftl: &str) -> LanguagePack {
    LanguagePack::load(locale, empty_manifest(locale), vec![ftl.to_string()]).unwrap()
}

fn repo_with_en(ftl: &str) -> TextRepository {
    let mut source = LanguageFileDataSource::new();
    source.insert_pack("en", pack("en", ftl)).unwrap();
    TextRepository::new(source).unwrap()
}

#[test]
fn test_load_language_pack() {
    let p = pack("en", "Cleric = Cleric\n");
    assert_eq!(p.locale, "en");
    let repo = repo_with_en("Cleric = Cleric\n");
    assert_eq!(repo.get_message("Cleric", None), "Cleric");
}

#[test]
fn test_try_get_message() {
    let repo = repo_with_en("Cleric = Cleric\n");
    assert_eq!(repo.get_message("Cleric", None), "Cleric");
}

#[test]
fn test_missing_key_yields_sentinel() {
    let repo = repo_with_en("greeting = Hello\n");
    assert_eq!(repo.get_message("greeting", None), "Hello");
    assert_eq!(repo.get_message("absent-key", None), "MISSING");
    assert_eq!(repo.get_attr("greeting", "desc", None), "MISSING");
}

#[test]
fn test_attribute_lookup() {
    let repo = repo_with_en("Cleric = Cleric\n    .desc = A devoted healer.\n");
    assert_eq!(repo.get_attr("Cleric", "desc", None), "A devoted healer.");
    assert_eq!(repo.get_attr("Cleric", "lore", None), "MISSING");
    assert_eq!(repo.get_attr("Paladin", "desc", None), "MISSING");
}

#[test]
fn test_interpolation_arguments() {
    let repo = repo_with_en("welcome = Hello { $name }!\n");
    let args = vec![("name".to_string(), "World".to_string())];
    assert_eq!(
        repo.get_message("welcome", Some(&args)),
        "Hello \u{2068}World\u{2069}!"
    );
    // A missing interpolation argument is a formatting error: MISSING.
    assert_eq!(repo.get_message("welcome", None), "MISSING");
}

#[test]
fn test_no_fallback_once_locale_loaded() {
    let mut source = LanguageFileDataSource::new();
    source
        .insert_pack("en", pack("en", "greeting = Hello\nshared = common\n"))
        .unwrap();
    source
        .insert_pack("de", pack("de", "shared = gemeinsam\n"))
        .unwrap();
    let mut repo = TextRepository::new(source).unwrap();
    assert_eq!(repo.get_message("greeting", None), "Hello");
    repo.load("de").unwrap();
    assert_eq!(repo.get_message("shared", None), "gemeinsam");
    // The key exists in the default catalog, but the loaded locale lacks
    // it: no silent fallback.
    assert_eq!(repo.get_message("greeting", None), "MISSING");
}

#[test]
fn test_default_catalog_used_when_active_never_loaded() {
    let mut source = LanguageFileDataSource::new();
    source
        .insert_pack("en", pack("en", "greeting = Hello\n"))
        .unwrap();
    let base = TextRepository::new(source).unwrap();
    // An active locale that was never loaded resolves through the
    // default catalog.
    let repo = TextRepository {
        source: base.source,
        watchers: base.watchers,
        first_language: "fr".to_string(),
    };
    assert_eq!(repo.get_message("greeting", None), "Hello");
}

#[test]
fn test_load_errors_leave_repository_unchanged() {
    let mut repo = repo_with_en("greeting = Hello\n");
    assert_eq!(repo.load("de"), Err(LoadError::ResourceNotFound));
    assert_eq!(repo.load("no such locale"), Err(LoadError::InvalidLocale));
    assert_eq!(repo.get_message("greeting", None), "Hello");
}

#[test]
fn test_locale_identifiers_are_canonicalized() {
    let mut source = LanguageFileDataSource::new();
    source
        .insert_pack("en", pack("en", "greeting = Hello\n"))
        .unwrap();
    source
        .insert_pack("de-DE", pack("de-DE", "greeting = Hallo\n"))
        .unwrap();
    let mut repo = TextRepository::new(source).unwrap();
    // A differently-cased spelling names the same locale.
    repo.load("DE-de").unwrap();
    assert_eq!(repo.get_message("greeting", None), "Hallo");
}

#[test]
fn test_has_reloaded_is_edge_triggered() {
    let mut repo = repo_with_en("greeting = Hello\n");
    // Fresh watch, no change yet.
    assert!(!repo.has_reloaded("en"));
    // A content edit supersedes the pack and moves the version.
    repo.install_pack("en", pack("en", "greeting = Hi\n")).unwrap();
    assert!(repo.has_reloaded("en"));
    assert!(!repo.has_reloaded("en"));
    assert_eq!(repo.get_message("greeting", None), "Hi");
}

#[test]
fn test_has_reloaded_true_without_watch() {
    let mut repo = repo_with_en("greeting = Hello\n");
    // No watch is registered for these: unknown reads as changed.
    assert!(repo.has_reloaded("fr"));
    assert!(repo.has_reloaded("not a locale"));
}

#[test]
fn test_repository_requires_default_locale() {
    let mut source = LanguageFileDataSource::new();
    source
        .insert_pack("de", pack("de", "greeting = Hallo\n"))
        .unwrap();
    match TextRepository::new(source) {
        Ok(_) => panic!("default locale must be mandatory"),
        Err(e) => assert_eq!(e, LoadError::ResourceNotFound),
    }
}

#[test]
fn test_pack_load_errors() {
    match LanguagePack::load("!!", empty_manifest("!!"), Vec::new()) {
        Ok(_) => panic!("an invalid locale must be rejected"),
        Err(e) => assert_eq!(e, PackError::InvalidLocale),
    }
    let sources = vec!["greeting = Hello\n".to_string(), "===\n".to_string()];
    match LanguagePack::load("en", empty_manifest("en"), sources) {
        Ok(_) => panic!("a malformed source must be rejected"),
        Err(e) => assert_eq!(e, PackError::BadResource { index: 1 }),
    }
}

#[test]
fn test_pack_carries_manifest_fonts() {
    let manifest = LanguageManifest {
        fonts: vec![(
            "regular".to_string(),
            mutemaanpa_lib::language::Font {
                location: "font.ttf".to_string(),
            },
        )],
        language: "en".to_string(),
    };
    let p = LanguagePack::load("en", manifest, Vec::new()).unwrap();
    assert_eq!(p.fonts.len(), 1);
    assert_eq!(p.fonts[0].0, "regular");
    assert_eq!(p.fonts[0].1.location, "font.ttf");
    // A pack built from no sources holds no messages.
    let mut source = LanguageFileDataSource::new();
    source.insert_pack("en", p).unwrap();
    let repo = TextRepository::new(source).unwrap();
    assert_eq!(repo.get_message("anything", None), "MISSING");
}

#[test]
fn test_first_ftl_definition_wins() {
    let sources = vec![
        "greeting = first\n".to_string(),
        "greeting = second\n".to_string(),
    ];
    let p = LanguagePack::load("en", empty_manifest("en"), sources).unwrap();
    let mut source = LanguageFileDataSource::new();
    source.insert_pack("en", p).unwrap();
    let repo = TextRepository::new(source).unwrap();
    assert_eq!(repo.get_message("greeting", None), "first");
}
