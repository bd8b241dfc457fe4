use liveui::selector_config::{
    matches_parsed, migrate_raw_preset, parse_pattern, should_capture, PresetConfig, PresetError,
    RawPreset, RawPresetConfig,
};
use liveui::strmap::StrMap;

#[test]
fn parse_simple_exe() {
    let p = parse_pattern("devenv.exe");
    assert!(p.mode.is_none());
    assert_eq!(p.exe_path, "devenv.exe");
    assert!(p.title.is_none());
}

#[test]
fn parse_mode_prefix() {
    let p = parse_pattern("@code devenv.exe");
    assert_eq!(p.mode.as_deref(), Some("code"));
    assert_eq!(p.exe_path, "devenv.exe");
    assert!(p.title.is_none());
}

#[test]
fn parse_exe_with_title() {
    let p = parse_pattern("@code Code.exe@LiveUI");
    assert_eq!(p.mode.as_deref(), Some("code"));
    assert_eq!(p.exe_path, "Code.exe");
    assert_eq!(p.title.as_deref(), Some("LiveUI"));
}

#[test]
fn parse_exclude() {
    let p = parse_pattern("@exclude gogh.exe");
    assert_eq!(p.mode.as_deref(), Some("exclude"));
    assert_eq!(p.exe_path, "gogh.exe");
}

#[test]
fn parse_title_only_pattern() {
    // '@' directly followed by the title, no space: a title filter, no mode
    let p = parse_pattern("@LiveUI");
    assert!(p.mode.is_none());
    assert_eq!(p.exe_path, "");
    assert_eq!(p.title.as_deref(), Some("LiveUI"));
    // "@ x": the space right after '@' gives no mode
    let q = parse_pattern("@ x");
    assert!(q.mode.is_none());
    assert_eq!(q.exe_path, "");
    assert_eq!(q.title.as_deref(), Some(" x"));
}

#[test]
fn matches_exe_path_substring() {
    let p = parse_pattern("devenv.exe");
    assert!(matches_parsed(&p, "C:\\Program Files\\devenv.exe", "Window", false));
    assert!(!matches_parsed(&p, "C:\\Program Files\\code.exe", "Window", false));
}

#[test]
fn matches_path_separator_normalization() {
    let p = parse_pattern("C:/Program Files/JetBrains/");
    assert!(matches_parsed(&p, "C:\\Program Files\\JetBrains\\idea64.exe", "", false));
}

#[test]
fn matches_title_case_insensitive() {
    let p = parse_pattern("Code.exe@liveui");
    assert!(matches_parsed(&p, "C:\\Code.exe", "Nekomaru LiveUI v2", false));
    assert!(!matches_parsed(&p, "C:\\Code.exe", "Some Other Window", false));
}

#[test]
fn exe_match_is_case_sensitive_unless_asked() {
    let p = parse_pattern("DEVENV.EXE");
    assert!(!matches_parsed(&p, "C:\\devenv.exe", "", false));
    assert!(matches_parsed(&p, "C:\\devenv.exe", "", true));
}

#[test]
fn should_capture_include_and_exclude() {
    let patterns: Vec<String> = vec!["@code devenv.exe".into(), "@exclude gogh.exe".into()];
    let result = should_capture(&patterns, "C:\\devenv.exe", "Test");
    assert_eq!(result, Some(Some("code".into())));
    let result = should_capture(&patterns, "C:\\gogh.exe", "Test");
    assert!(result.is_none());
    let result = should_capture(&patterns, "C:\\notepad.exe", "Test");
    assert!(result.is_none());
}

#[test]
fn exclude_takes_priority() {
    let patterns: Vec<String> = vec!["@game D:/7-Games/".into(), "@exclude vtube studio.exe".into()];
    let result = should_capture(&patterns, "D:/7-Games/vtube studio.exe", "VTube");
    assert!(result.is_none());
}

#[test]
fn exclusion_listed_first_still_vetoes_and_first_inclusion_wins() {
    let patterns: Vec<String> =
        vec!["@exclude VTUBE".into(), "@a D:/".into(), "@b D:/Games/".into(), "plain".into()];
    assert_eq!(should_capture(&patterns, "D:/Games/vtube.exe", ""), None);
    assert_eq!(should_capture(&patterns, "D:/Games/x.exe", ""), Some(Some("a".into())));
    assert_eq!(should_capture(&patterns, "E:/plain.exe", ""), Some(None));
}

#[test]
fn default_config_has_default_preset() {
    let c = PresetConfig::defaults();
    assert_eq!(c.preset(), "default");
    let pats = c.active_patterns().unwrap();
    assert_eq!(pats.len(), 9);
    assert_eq!(pats[0], "@code devenv.exe");
    assert_eq!(pats[8], "@exclude vtube studio.exe");
}

#[test]
fn legacy_preset_migrates_to_flat_entries() {
    let raw = RawPreset::Legacy {
        included: Some(vec![Some("devenv.exe".into()), None, Some("Code.exe".into())]),
        excluded: Some(vec![Some("gogh.exe".into())]),
    };
    let v = migrate_raw_preset(&raw).unwrap();
    assert_eq!(v, vec!["devenv.exe".to_string(), "Code.exe".into(), "@exclude gogh.exe".into()]);
    let migrated = parse_pattern(&v[2]);
    assert_eq!(migrated.mode.as_deref(), Some("exclude"));
    assert_eq!(migrated.exe_path, "gogh.exe");
    assert!(migrate_raw_preset(&RawPreset::Other).is_none());
    let flat = RawPreset::List(vec![Some("a".into()), None, Some("b".into())]);
    assert_eq!(migrate_raw_preset(&flat).unwrap(), vec!["a".to_string(), "b".into()]);
}

#[test]
fn config_from_raw_defaults() {
    // nothing usable: default name and built-in presets
    let c = PresetConfig::from_raw(RawPresetConfig { preset: None, presets: None });
    assert_eq!(c.preset(), "default");
    assert!(c.presets().contains_key("default"));
    // a usable preset replaces the built-in ones; later members win
    let c = PresetConfig::from_raw(RawPresetConfig {
        preset: Some("work".into()),
        presets: Some(vec![
            ("work".into(), RawPreset::List(vec![Some("x".into())])),
            ("junk".into(), RawPreset::Other),
            ("work".into(), RawPreset::List(vec![Some("y".into())])),
        ]),
    });
    assert_eq!(c.preset(), "work");
    assert!(!c.presets().contains_key("default"));
    assert!(!c.presets().contains_key("junk"));
    assert_eq!(c.active_patterns().unwrap(), &vec!["y".to_string()]);
}

#[test]
fn select_preset_validates_name() {
    let mut presets: StrMap<Vec<String>> = StrMap::new();
    presets.insert("main".into(), vec!["devenv.exe".into()]);
    presets.insert("games".into(), vec!["D:/".into()]);
    let mut c = PresetConfig::from_parts("main".into(), presets);
    assert!(matches!(c.select_preset("  \n"), Err(PresetError::NameRequired)));
    match c.select_preset(" nope ") {
        Err(PresetError::NotFound(n)) => assert_eq!(n, "nope"),
        _ => panic!("expected NotFound"),
    }
    assert_eq!(c.preset(), "main");
    assert!(c.select_preset("\tgames\n").is_ok());
    assert_eq!(c.preset(), "games");
    assert_eq!(c.active_patterns().unwrap(), &vec!["D:/".to_string()]);
}
