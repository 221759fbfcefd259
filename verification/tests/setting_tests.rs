use mutemaanpa_lib::language::{Font, LanguageManifest};
use mutemaanpa_lib::setting::{GameplaySetting, LanguageSetting, Setting};

#[test]
fn test_setting_defaults() {
    let setting = Setting::new("somewhere.cfg");
    assert_eq!(setting.language.language, "en");
    assert_eq!(setting.gameplay.entry_point, "prologue");
    assert_eq!(setting.path, "somewhere.cfg");

    let default_setting = Setting::default();
    assert_eq!(default_setting.path, Setting::DEFAULT_SETTINGS_PATH);
    assert_eq!(LanguageSetting::default().language, "en");
    assert_eq!(GameplaySetting::default().entry_point, "prologue");
}

fn manifest_to_yaml(m: &LanguageManifest) -> String {
    let mut fonts = serde_yaml::Mapping::new();
    for (role, font) in &m.fonts {
        let mut entry = serde_yaml::Mapping::new();
        entry.insert(
            serde_yaml::Value::String("location".to_string()),
            serde_yaml::Value::String(font.location.clone()),
        );
        fonts.insert(
            serde_yaml::Value::String(role.clone()),
            serde_yaml::Value::Mapping(entry),
        );
    }
    let mut root = serde_yaml::Mapping::new();
    root.insert(
        serde_yaml::Value::String("fonts".to_string()),
        serde_yaml::Value::Mapping(fonts),
    );
    root.insert(
        serde_yaml::Value::String("language".to_string()),
        serde_yaml::Value::String(m.language.clone()),
    );
    serde_yaml::to_string(&serde_yaml::Value::Mapping(root)).unwrap()
}

fn manifest_from_yaml(text: &str) -> LanguageManifest {
    let value: serde_yaml::Value = serde_yaml::from_str(text).unwrap();
    let root = value.as_mapping().unwrap();
    let mut fonts = Vec::new();
    let fonts_value = root
        .get(serde_yaml::Value::String("fonts".to_string()))
        .unwrap()
        .as_mapping()
        .unwrap();
    for (role, entry) in fonts_value {
        let location = entry
            .as_mapping()
            .unwrap()
            .get(serde_yaml::Value::String("location".to_string()))
            .unwrap()
            .as_str()
            .unwrap()
            .to_string();
        fonts.push((role.as_str().unwrap().to_string(), Font { location }));
    }
    let language = root
        .get(serde_yaml::Value::String("language".to_string()))
        .unwrap()
        .as_str()
        .unwrap()
        .to_string();
    LanguageManifest { fonts, language }
}

#[test]
fn test_manifest() {
    let manifest = LanguageManifest {
        fonts: vec![
            (
                String::from("regular"),
                Font {
                    location: String::from("font.ttf"),
                },
            ),
            (
                String::from("serif"),
                Font {
                    location: String::from("font2.ttf"),
                },
            ),
        ],
        language: "en-US".to_string(),
    };
    let manifest_str = manifest_to_yaml(&manifest);
    let recovered_struct = manifest_from_yaml(&manifest_str);
    assert_eq!(manifest, recovered_struct);
}
