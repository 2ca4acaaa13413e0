use mod_manager::mod_names::{
    display_name_from_filename, installed_version_from_filename, is_version_or_loader_segment,
    loader_hint_from_filename, minecraft_version_hint_from_filename, mod_name_tokens,
    normalized_match_key, slug_key, spaced_camel_case, strip_filename_decorations,
    strip_qualifiers, strip_side_prefix, strip_version_suffixes, title_case_if_lowercase,
    hyphenated_to_spaced, is_emoji_char, is_minecraft_version_segment, is_loader_segment,
};

#[test]
fn display_name_strips_side_loader_and_version() {
    assert_eq!(
        display_name_from_filename("C-XaeroZoomout-NeoForge-1.21-2.0.0.jar"),
        "Xaero Zoomout"
    );
}

#[test]
fn display_name_humanizes_lowercase_file_stem() {
    assert_eq!(
        display_name_from_filename("U-open-parties-and-claims-neoforge-1.21.1-0.24.2.jar"),
        "Open Parties And Claims"
    );
}

#[test]
fn installed_version_strips_loader_and_minecraft_version() {
    assert_eq!(
        installed_version_from_filename("C-XaeroZoomout-NeoForge-1.21-2.0.0.jar"),
        Some("2.0.0".to_string())
    );
}

#[test]
fn installed_version_keeps_qualified_suffix() {
    assert_eq!(
        installed_version_from_filename("Alshanex_Familiars-1.21.1_v2.0_HotFix.jar"),
        Some("v2.0-HotFix".to_string())
    );
}

#[test]
fn installed_version_absent_without_version_tail() {
    assert_eq!(installed_version_from_filename("JustAName.jar"), None);
    assert_eq!(installed_version_from_filename("mod-name.jar"), None);
}

#[test]
fn display_name_falls_back_to_stem() {
    assert_eq!(display_name_from_filename("1.21.1.jar"), "1.21.1");
}

#[test]
fn strip_qualifiers_removes_nested_brackets() {
    assert_eq!(strip_qualifiers("Mod (Fabric [1.20]) Name "), "Mod  Name");
    assert_eq!(strip_qualifiers("a)b(c"), "ab");
}

#[test]
fn match_keys_are_lowercase_alphanumeric() {
    assert_eq!(normalized_match_key("FTB Quests-2"), "ftbquests2");
    assert_eq!(slug_key("--FTB  Quests!!"), "ftb-quests");
    assert_eq!(slug_key("!!!"), "");
}

#[test]
fn version_segments_are_recognised() {
    assert!(is_version_or_loader_segment("NeoForge"));
    assert!(is_version_or_loader_segment("mc1.21"));
    assert!(is_version_or_loader_segment("v2"));
    assert!(is_version_or_loader_segment("HotFix2"));
    assert!(is_version_or_loader_segment("0.7.51b"));
    assert!(is_version_or_loader_segment("1.5.3+1.21.1"));
    assert!(is_version_or_loader_segment(""));
    assert!(!is_version_or_loader_segment("simplylight"));
    assert!(!is_version_or_loader_segment("Zoomout"));
    assert!(is_loader_segment(" Fabric "));
    assert!(!is_loader_segment("client"));
    assert!(is_minecraft_version_segment("MC1.21.1"));
    assert!(!is_minecraft_version_segment("2.0.0"));
}

#[test]
fn filename_hints() {
    assert_eq!(loader_hint_from_filename("fabric-loader-0.16.jar"), Some("fabric".to_string()));
    assert_eq!(loader_hint_from_filename("sodium-NeoForge-0.6.jar"), Some("neoforge".to_string()));
    assert_eq!(loader_hint_from_filename("sodium-0.6.jar"), None);
    assert_eq!(
        minecraft_version_hint_from_filename("appleskin-neoforge-mc1.21-3.0.9.jar"),
        Some("1.21".to_string())
    );
    assert_eq!(minecraft_version_hint_from_filename("appleskin-3.0.9.jar"), None);
}

#[test]
fn name_helpers() {
    assert_eq!(spaced_camel_case("XaeroZoomout"), "Xaero Zoomout");
    assert_eq!(hyphenated_to_spaced("open-parties_and-1.21.1"), "open parties and");
    assert_eq!(strip_side_prefix("C-Mod"), "Mod");
    assert_eq!(strip_side_prefix("x-Mod"), "x-Mod");
    assert_eq!(title_case_if_lowercase("open  parties"), "Open Parties");
    assert_eq!(title_case_if_lowercase("Open parties"), "Open parties");
    assert_eq!(strip_filename_decorations("  💡 -(simplylight) "), "simplylight)");
    assert!(is_emoji_char('💡'));
    assert!(!is_emoji_char('a'));
    assert_eq!(strip_version_suffixes("FramedBlocks-10.3.2"), "FramedBlocks");
    assert_eq!(mod_name_tokens("a-b-1.0"), vec!["a".to_string(), "b".to_string()]);
}
