use mod_manager::instance_meta::InstanceTarget;
use mod_manager::prefetch::CurseforgeLogo;
use mod_manager::provider_search::{
    batch_chunks, batch_id_params, curseforge_files_path, curseforge_hit_candidate, curseforge_search_path,
    finish_candidates, merge_search_batch, modrinth_hit_candidate, modrinth_hits_candidates, modrinth_search_icon_pick,
    modrinth_search_url, parse_i64, project_index, unique_batch_ids, unique_numeric_batch_ids, CurseforgeHit, ModrinthHit,
};
use mod_manager::remote::ProviderCandidate;

fn strings(items: &[&str]) -> Vec<String> {
    items.iter().map(|s| s.to_string()).collect()
}

fn hit(id: &str, title: &str, kind: &str, icon: Option<&str>) -> ModrinthHit {
    ModrinthHit {
        project_id: Some(Some(id.to_string())),
        slug: Some(id.to_lowercase()),
        title: Some(title.to_string()),
        project_type: Some(kind.to_string()),
        icon_url: icon.map(|s| s.to_string()),
    }
}

fn candidate(id: &str, title: &str) -> ProviderCandidate {
    ProviderCandidate {
        id: id.to_string(),
        slug: None,
        title: title.to_string(),
        summary: None,
        icon_url: None,
        exact_file_match: false,
        match_score: 0,
    }
}

#[test]
fn search_addresses_are_percent_encoded() {
    assert_eq!(
        modrinth_search_url(" FTB Quests ", 5).as_deref(),
        Some("https://api.modrinth.com/v2/search?query=FTB%20Quests&limit=5&index=relevance&facets=%5B%5B%22project_type%3Amod%22%5D%5D")
    );
    assert_eq!(modrinth_search_url("   ", 5), None);
    assert_eq!(
        curseforge_search_path("jei é", 5).as_deref(),
        Some("mods/search?gameId=432&classId=6&searchFilter=jei%20%C3%A9&pageSize=5")
    );
    let target = InstanceTarget { minecraft_version: Some("1.21.1".to_string()), loader: Some(" NeoForge ".to_string()) };
    assert_eq!(
        curseforge_files_path("238222", None, &target),
        "mods/238222/files?pageSize=50&gameVersion=1.21.1&modLoaderType=6"
    );
    let none = InstanceTarget { minecraft_version: None, loader: Some("rift".to_string()) };
    assert_eq!(curseforge_files_path("1", Some(10), &none), "mods/1/files?pageSize=10");
}

#[test]
fn hits_become_candidates() {
    let h = hit("AANobbMI", "", "mod", Some("  https://i/x.png "));
    let c = modrinth_hit_candidate(&h).unwrap();
    assert_eq!(c.id, "AANobbMI");
    assert_eq!(c.title, "Без названия");
    assert_eq!(c.icon_url.as_deref(), Some("https://i/x.png"));
    assert!(modrinth_hit_candidate(&hit("X", "Pack", "modpack", None)).is_none());
    let by_slug = ModrinthHit { project_id: None, slug: Some("slug".to_string()), title: None, project_type: Some("mod".to_string()), icon_url: None };
    assert_eq!(modrinth_hit_candidate(&by_slug).unwrap().id, "slug");
    let hits = vec![hit("A", "A", "mod", None), hit("B", "B", "shader", None), hit("C", "C", "mod", None)];
    let list = modrinth_hits_candidates(&hits);
    assert_eq!(list.iter().map(|c| c.id.clone()).collect::<Vec<_>>(), strings(&["A", "C"]));
    let cf = CurseforgeHit {
        id: Some(238222),
        name: Some("JEI".to_string()),
        slug: Some("jei".to_string()),
        logo: Some(CurseforgeLogo { thumbnail_url: None, url: Some("https://l".to_string()) }),
    };
    let c = curseforge_hit_candidate(&cf).unwrap();
    assert_eq!(c.id, "238222");
    assert_eq!(c.icon_url.as_deref(), Some("https://l"));
}

#[test]
fn icon_search_takes_first_matching_hit_with_icon() {
    let hits = vec![
        hit("a", "Other Mod", "mod", Some("https://other")),
        hit("ftb-quests", "FTB Quests", "mod", None),
        hit("ftb-quests-2", "FTB Quests", "mod", Some("https://quests")),
    ];
    assert_eq!(modrinth_search_icon_pick(&hits, "FTB Quests").as_deref(), Some("https://quests"));
    assert_eq!(modrinth_search_icon_pick(&hits, "Nothing Here"), None);
}

#[test]
fn merged_searches_keep_first_of_each_id() {
    let mut list = vec![candidate("1", "A")];
    merge_search_batch(&mut list, vec![candidate("1", "A again"), candidate("2", "B"), candidate("2", "B again")]);
    assert_eq!(list.iter().map(|c| c.title.clone()).collect::<Vec<_>>(), strings(&["A", "B"]));
    let mut many: Vec<ProviderCandidate> = (0..8).map(|n| candidate(&n.to_string(), &format!("T{n}"))).collect();
    finish_candidates("T3", &mut many);
    assert_eq!(many.len(), 5);
    assert!(many.windows(2).all(|w| w[0].match_score >= w[1].match_score));
}

#[test]
fn batch_ids_are_unique_and_chunked() {
    assert_eq!(unique_batch_ids(&strings(&["a", " ", "b", "a"])), strings(&["a", "b"]));
    let ids: Vec<String> = (0..120).map(|n| format!("id{n}")).collect();
    let chunks = batch_chunks(&ids);
    assert_eq!(chunks.iter().map(|c| c.len()).collect::<Vec<_>>(), vec![50, 50, 20]);
    assert_eq!(chunks[2][0], "id100");
    assert_eq!(batch_id_params(&strings(&["a", "b\"", "a"])), vec!["[\"a\",\"b\\\"\"]".to_string()]);
    let params = batch_id_params(&ids);
    assert_eq!(params.len(), 3);
    assert!(params[2].starts_with("[\"id100\","));
    assert!(batch_id_params(&strings(&[" ", ""])).is_empty());
    assert_eq!(parse_i64("-9223372036854775808"), Some(i64::MIN));
    assert_eq!(parse_i64("+42"), Some(42));
    assert_eq!(parse_i64("9223372036854775808"), None);
    assert_eq!(parse_i64("-"), None);
    assert_eq!(parse_i64("+-1"), None);
    assert_eq!(parse_i64(" 1"), None);
    assert_eq!(unique_numeric_batch_ids(&strings(&["5", "x", "05", "7"])), vec![5, 7]);
}

#[test]
fn projects_are_filed_by_id_then_slug() {
    let projects = vec![
        (Some("AA".to_string()), Some("jei".to_string())),
        (Some("BB".to_string()), Some("AA".to_string())),
        (Some("jei".to_string()), None),
    ];
    let index = project_index(&projects);
    let at = |key: &str| index.iter().find(|(k, _)| k == key).map(|(_, v)| *v);
    assert_eq!(at("AA"), Some(0));
    assert_eq!(at("BB"), Some(1));
    assert_eq!(at("jei"), Some(2));
    assert_eq!(at("zz"), None);
}
