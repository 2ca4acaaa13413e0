use mod_manager::covers::{
    cache_cover_name, cover_ext_from_mime, cover_platform_prefixes, cover_prefix_variant, cover_step,
    existing_cover, find_cover_in_dir, hash_cover_key, safe_file_stem, CoverLocation, CoverStep, PrefetchReport,
};
use mod_manager::install_catalog::{
    catalog_download_plan, curseforge_download_reply, curseforge_required_mod_ids, enter_dependency,
    installed_key_for_dependency, installed_key_for_project, modrinth_project_meta, modrinth_required_project_ids,
    normalize_catalog_source, note_listed, pick_best_version, project_details_cache_fresh, stable_key_for_item,
    write_catalog_tag, DownloadPlan, ResolvedInstallItem,
};
use mod_manager::instance_meta::InstanceTarget;
use mod_manager::mods::{ModEntry, UNKNOWN_SIDE};
use mod_manager::prefetch::{CurseforgeDependency, ModrinthDependency};
use mod_manager::tags::{ModTags, TagFile};
use mod_manager::updates::ProviderVersion;

fn strings(items: &[&str]) -> Vec<String> {
    items.iter().map(|s| s.to_string()).collect()
}

fn entry(key: &str, filename: &str, name: &str) -> ModEntry {
    ModEntry {
        key: key.to_string(),
        filename: filename.to_string(),
        base: filename.to_string(),
        display_name: name.to_string(),
        display_name_locked: false,
        installed_version: None,
        side: UNKNOWN_SIDE.to_string(),
        library: false,
        technical: false,
        description: String::new(),
        dependencies: Vec::new(),
        resolved_dependencies: Vec::new(),
        jar_dependencies: Vec::new(),
        used_by: Vec::new(),
        cover_url: None,
        cover_path: None,
        cover_manual: false,
        cover_modified_at: None,
        source: "manual".to_string(),
        source_url: None,
        has_index: false,
        has_tags: false,
        index_file: None,
        pack_side: None,
        modrinth_id: None,
        modrinth_version_id: None,
        curseforge_id: None,
        curseforge_file_id: None,
        duplicate: false,
        modified_at: String::new(),
        side_mode: "auto".to_string(),
        manual_side: String::new(),
        manual_library: false,
        manual_technical: false,
        provider_side: String::new(),
        provider_library: false,
        provider_technical: false,
        disabled: false,
    }
}

fn version(id: &str, filename: &str, date: Option<&str>, game: &[&str], loaders: &[&str]) -> ProviderVersion {
    ProviderVersion {
        id: id.to_string(),
        file_id: None,
        version_number: id.to_string(),
        name: id.to_string(),
        filename: filename.to_string(),
        download_url: None,
        game_versions: strings(game),
        loaders: strings(loaders),
        date_published: date.map(|d| d.to_string()),
        downloads: None,
        size: None,
        release_type: None,
    }
}

#[test]
fn curseforge_required_mod_ids_keeps_only_required_dependencies() {
    let deps = vec![
        CurseforgeDependency { mod_id: Some(238222), relation_type: Some(3) },
        CurseforgeDependency { mod_id: Some(306612), relation_type: Some(2) },
        CurseforgeDependency { mod_id: Some(890303), relation_type: Some(3) },
    ];
    assert_eq!(curseforge_required_mod_ids(&deps), vec!["238222".to_string(), "890303".to_string()]);
}

#[test]
fn modrinth_required_ids_skip_optional_and_missing() {
    let deps = vec![
        ModrinthDependency { dependency_type: Some("required".to_string()), project_id: Some("P1".to_string()) },
        ModrinthDependency { dependency_type: Some("optional".to_string()), project_id: Some("P2".to_string()) },
        ModrinthDependency { dependency_type: Some("required".to_string()), project_id: None },
        ModrinthDependency { dependency_type: None, project_id: Some("P3".to_string()) },
    ];
    assert_eq!(modrinth_required_project_ids(&deps), strings(&["P1"]));
    let negative = vec![CurseforgeDependency { mod_id: Some(-5), relation_type: Some(3) }];
    assert_eq!(curseforge_required_mod_ids(&negative), strings(&["-5"]));
}

#[test]
fn installed_dependency_found_by_link_id_file_or_title() {
    let mut a = entry("a", "alpha-1.0.jar", "Alpha Mod");
    a.curseforge_id = Some("111".to_string());
    let mut b = entry("b", "beta-2.0.jar", "Beta");
    b.modrinth_id = Some("111".to_string());
    let c = entry("c", "gamma-3.0.jar", "Gamma: Extra");
    let mods = vec![a, b, c];
    assert_eq!(installed_key_for_project(&mods, "modrinth", "111").as_deref(), Some("b"));
    assert_eq!(installed_key_for_dependency(&mods, "modrinth", "111", "x", None).as_deref(), Some("b"));
    assert_eq!(installed_key_for_dependency(&mods, "curseforge", "111", "x", None).as_deref(), Some("a"));
    assert_eq!(installed_key_for_dependency(&mods, "modrinth", "999", "x", Some(" gamma-3.0.jar ")).as_deref(), Some("c"));
    assert_eq!(installed_key_for_dependency(&mods, "modrinth", "999", "gamma extra", None).as_deref(), Some("c"));
    assert_eq!(installed_key_for_dependency(&mods, "modrinth", "999", "!!", Some("  ")), None);
}

#[test]
fn best_version_is_newest_fitting_one() {
    let target = InstanceTarget { minecraft_version: Some("1.21.1".to_string()), loader: Some("neoforge".to_string()) };
    let versions = vec![
        version("a", "a.jar", Some("2024-01-01"), &["1.21.1"], &["neoforge"]),
        version("b", "b.jar", Some("2024-06-01"), &["1.20.1"], &["neoforge"]),
        version("c", "c.jar", Some("2024-03-01"), &["1.21.1"], &["NeoForge"]),
        version("d", "d.jar", Some("2024-03-01"), &["1.21.1"], &["neoforge"]),
    ];
    assert_eq!(pick_best_version(versions, &target).unwrap().id, "c");
    let none = vec![version("b", "b.jar", Some("2024-06-01"), &["1.20.1"], &["forge"])];
    assert_eq!(pick_best_version(none, &target).err().unwrap(), "Нет версии под текущую сборку.");
    let open = InstanceTarget { minecraft_version: None, loader: None };
    let any = vec![version("x", "x.jar", None, &[], &[]), version("y", "y.jar", Some("2020"), &[], &[])];
    assert_eq!(pick_best_version(any, &open).unwrap().id, "y");
}

#[test]
fn dependency_walk_refuses_cycles_and_depth() {
    let mut visiting = Vec::new();
    assert!(enter_dependency(&mut visiting, 0, "A").is_ok());
    assert!(enter_dependency(&mut visiting, 1, "A").unwrap_err().contains("по кругу"));
    assert_eq!(enter_dependency(&mut visiting, 11, "B").unwrap_err(), "Слишком глубокая цепочка зависимостей.");
    assert_eq!(visiting, strings(&["A"]));
    let mut listed = Vec::new();
    assert!(note_listed(&mut listed, "X"));
    assert!(!note_listed(&mut listed, "X"));
}

#[test]
fn catalog_rules_for_sources_cache_and_downloads() {
    assert_eq!(normalize_catalog_source(" Modrinth ").unwrap(), "modrinth");
    assert_eq!(normalize_catalog_source("github").unwrap_err(), "Каталог доступен только для Modrinth или CurseForge.");
    assert!(project_details_cache_fresh(Some(1_000), 1_000 + 604_800_000));
    assert!(!project_details_cache_fresh(Some(1_000), 1_001 + 604_800_000));
    assert!(project_details_cache_fresh(Some(5_000), 1_000));
    assert!(!project_details_cache_fresh(None, 1_000));
    let mut item = ResolvedInstallItem {
        project_id: "238222".to_string(),
        source: "curseforge".to_string(),
        slug: Some(" jei ".to_string()),
        version: version("4001", "jei-1.jar", None, &[], &[]),
    };
    assert!(matches!(catalog_download_plan(&item), Ok(DownloadPlan::AskCurseforge(f)) if f == "4001"));
    item.version.download_url = Some(" https://x/jei.jar ".to_string());
    assert!(matches!(catalog_download_plan(&item), Ok(DownloadPlan::Direct(u)) if u == "https://x/jei.jar"));
    assert_eq!(curseforge_download_reply(Some("  ".to_string())).unwrap_err(), "У этой версии CurseForge нет доступной ссылки на скачивание.");
    assert_eq!(stable_key_for_item(&item), "curseforge:238222");
    item.source = "modrinth".to_string();
    item.version.download_url = None;
    assert_eq!(catalog_download_plan(&item).err().unwrap(), "У выбранной версии нет ссылки на скачивание.");
    let (title, _, icon) = modrinth_project_meta(Some(String::new()), None, Some(String::new()));
    assert_eq!(title, "Без названия");
    assert_eq!(icon, None);
}

#[test]
fn catalog_install_is_recorded_in_tags() {
    let mut tags = TagFile { version: 1, updated_at: String::new(), mods: Vec::new() };
    let mut existing = ModTags::default();
    existing.aliases = strings(&["jei-1.jar"]);
    tags.mods.push(("curseforge:238222".to_string(), existing));
    let item = ResolvedInstallItem {
        project_id: "238222".to_string(),
        source: "curseforge".to_string(),
        slug: Some(" jei ".to_string()),
        version: version("4001", " jei-1.jar ", None, &[], &[]),
    };
    write_catalog_tag(&mut tags, "curseforge:238222", &item, "now");
    assert_eq!(tags.mods.len(), 1);
    let t = &tags.mods[0].1;
    assert_eq!(t.curseforge_id, "238222");
    assert_eq!(t.curseforge_file_id, "4001");
    assert_eq!(t.curseforge_slug, "jei");
    assert_eq!(t.aliases, strings(&["jei-1.jar"]));
    assert_eq!(t.source, "curseforge");
    assert_eq!(tags.updated_at, "now");
}

#[test]
fn cover_names_and_types() {
    assert_eq!(safe_file_stem("modrinth:AANobbMI"), "modrinth_aanobbmi");
    assert_eq!(safe_file_stem("__Ünïcode__"), "n_code");
    assert_eq!(safe_file_stem("!!"), "cover");
    assert_eq!(cover_ext_from_mime(" image/jpeg ; charset=x").as_deref(), Some("jpg"));
    assert_eq!(cover_ext_from_mime("image/webp").as_deref(), Some("webp"));
    assert_eq!(cover_ext_from_mime("text/html"), None);
    let h = hash_cover_key("modrinth:abc");
    assert_eq!(h.len(), 24);
    assert!(h.chars().all(|c| c.is_ascii_hexdigit() && !c.is_ascii_uppercase()));
    assert_ne!(h, hash_cover_key("modrinth:abd"));
    assert_eq!(
        cover_platform_prefixes(Some("m1"), Some("c1")),
        strings(&["modrinth_m1", "modrinth-m1", "curseforge_c1", "curseforge-c1"])
    );
    assert_eq!(cover_platform_prefixes(Some(""), None), Vec::<String>::new());
    assert_eq!(cache_cover_name(&strings(&["modrinth_m1"]), "k", "png"), "modrinth_m1.png");
    assert_eq!(cache_cover_name(&Vec::new(), "My Key", "gif"), "my_key.gif");
    assert!(cover_prefix_variant("MODRINTH_M1_old.JPG", &strings(&["modrinth_m1"])));
    assert!(!cover_prefix_variant("modrinth_m1.txt", &strings(&["modrinth_m1"])));
}

#[test]
fn covers_are_found_in_order() {
    let prefixes = strings(&["modrinth_m1", "modrinth-m1"]);
    let cache = strings(&["k.png", "modrinth-m1.png", "modrinth_m1_2.webp"]);
    assert_eq!(find_cover_in_dir(&cache, &prefixes, "k"), Some(2));
    let stems = strings(&["k.gif", "k.jpg"]);
    assert_eq!(find_cover_in_dir(&stems, &prefixes, "k"), Some(1));
    assert_eq!(find_cover_in_dir(&strings(&["other.png"]), &prefixes, "k"), None);
    let manual = strings(&["k.png"]);
    assert!(matches!(existing_cover(Some(&manual), Some(&cache), None, &prefixes, "k"), Some(CoverLocation::Manual(0))));
    assert!(matches!(existing_cover(None, Some(&cache), None, &prefixes, "k"), Some(CoverLocation::Cache(2))));
    let catalog = strings(&["modrinth-m1.png"]);
    assert!(matches!(existing_cover(None, None, Some(&catalog), &prefixes, "k"), Some(CoverLocation::Catalog(0))));
    assert!(existing_cover(None, None, None, &prefixes, "k").is_none());
    assert!(matches!(cover_step(false, false, false), CoverStep::ThirdParty));
    let mut report = PrefetchReport::new();
    for n in 0..13 {
        report.record_failure(format!("e{n}"));
    }
    assert_eq!(report.failed, 13);
    assert_eq!(report.errors.len(), 12);
}
