use mutemaanpa_lib::class::{default_main_classes, ClassTree};
use mutemaanpa_lib::language::{LanguageFileDataSource, LanguageManifest, LanguagePack};
use mutemaanpa_lib::text::TextRepository;

#[test]
fn class_test_show_default_classes() {
    let classes = default_main_classes();
    println!("{:#?}", classes);
}

#[test]
fn test_default_tree_shape() {
    let tree = ClassTree::new();
    assert_eq!(tree.root.name, "Base");
    let names: Vec<&str> = tree.root.children.iter().map(|c| c.name).collect();
    assert_eq!(names, vec!["Citizen", "Fighter", "Scholar", "Cleric"]);
    for child in &tree.root.children {
        assert_eq!(child.children.len(), 3);
    }
}

#[test]
fn test_descriptions_resolve_through_localization() {
    let ftl = "Cleric = Cleric\n    .desc = A devoted healer.\nBase = Adventurer\n    .desc = Where it all begins.\n";
    let manifest = LanguageManifest {
        fonts: Vec::new(),
        language: "en".to_string(),
    };
    let pack = LanguagePack::load("en", manifest, vec![ftl.to_string()]).unwrap();
    let mut source = LanguageFileDataSource::new();
    source.insert_pack("en", pack).unwrap();
    let repo = TextRepository::new(source).unwrap();

    let tree = ClassTree::new();
    let descriptions = tree.get_descriptions(&repo);
    assert_eq!(descriptions.len(), 17);
    assert_eq!(descriptions[0].0, "Base");
    assert_eq!(descriptions[0].1.name, "Adventurer");
    assert_eq!(descriptions[0].1.detail, "Where it all begins.");
    let cleric = descriptions
        .iter()
        .find(|(name, _)| name == "Cleric")
        .unwrap();
    assert_eq!(cleric.1.name, "Cleric");
    assert_eq!(cleric.1.detail, "A devoted healer.");
    // Classes the catalog does not know fall to the sentinel.
    let rogue = descriptions
        .iter()
        .find(|(name, _)| name == "Rogue")
        .unwrap();
    assert_eq!(rogue.1.name, "MISSING");
    assert_eq!(rogue.1.detail, "MISSING");
}
