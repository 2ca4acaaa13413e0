//! Provider labels built from what Modrinth and CurseForge report about a
//! project and one of its files.
use vstd::prelude::*;
use crate::text::{chars_of, eq_ignore_case, eq_ignore_case_chars, opt_view, string_views, trim, trim_string};
use crate::tags::ProviderLabelsStore;
use crate::provider_labels::{
    category_slug, curseforge_loader_name, curseforge_sides_from_tags, curseforge_side_is_ambiguous,
    loader_name_of, merge_unique, merged, provider_side_is_definitive, push_unique, push_unique_value,
    side_ambiguous, sides_from_tags, slug_of_category, tags_from_versions, CurseforgeSideTags,
};

verus! {

// ---------------------------------------------------------------------------
// Modrinth
// ---------------------------------------------------------------------------

/// The fields of a Modrinth project that labels are made of.
pub struct ModrinthProjectFields {
    pub categories: Vec<String>,
    pub additional_categories: Vec<String>,
    pub loaders: Vec<String>,
    pub game_versions: Vec<String>,
    pub client_side: Option<String>,
    pub server_side: Option<String>,
}

/// The fields of a Modrinth version that labels are made of.
pub struct ModrinthVersionFields {
    pub loaders: Vec<String>,
    pub game_versions: Vec<String>,
}

/// A text field, trimmed; empty where it is missing.
pub open spec fn text_field(o: Option<String>) -> Seq<char> {
    match o {
        Some(s) => trim(s@),
        None => Seq::empty(),
    }
}

fn text_field_exec(o: &Option<String>) -> (r: String)
    ensures
        r@ == text_field(*o),
{
    match o {
        Some(s) => trim_string(s.as_str()),
        None => String::new(),
    }
}

fn copy_strings(v: &Vec<String>) -> (r: Vec<String>)
    ensures
        string_views(r@) == string_views(v@),
{
    let mut r: Vec<String> = Vec::new();
    let mut i: usize = 0;
    while i < v.len()
        invariant
            i <= v@.len(),
            string_views(r@) == string_views(v@).take(i as int),
        decreases v@.len() - i,
    {
        let ghost before = r@;
        r.push(v[i].clone());
        assert(string_views(r@) =~= string_views(before).push(v@[i as int]@));
        assert(string_views(v@).take(i + 1) =~= string_views(v@).take(i as int).push(v@[i as int]@));
        i = i + 1;
    }
    assert(string_views(v@).take(v@.len() as int) =~= string_views(v@));
    r
}

/// The loaders (or game versions) of a Modrinth project, with those of the
/// version added where they are new.
pub open spec fn with_version_items(project_items: Seq<Seq<char>>, version_items: Option<Seq<Seq<char>>>) -> Seq<Seq<char>> {
    match version_items {
        Some(v) => merged(project_items, v),
        None => project_items,
    }
}

pub open spec fn version_loaders(v: Option<&ModrinthVersionFields>) -> Option<Seq<Seq<char>>> {
    match v {
        Some(x) => Some(string_views(x.loaders@)),
        None => None,
    }
}

pub open spec fn version_game_versions(v: Option<&ModrinthVersionFields>) -> Option<Seq<Seq<char>>> {
    match v {
        Some(x) => Some(string_views(x.game_versions@)),
        None => None,
    }
}

/// Labels from a Modrinth project and, where it is known, the installed version.
pub open spec fn is_modrinth_labels(r: ProviderLabelsStore, project: ModrinthProjectFields, version: Option<&ModrinthVersionFields>, now: Seq<char>) -> bool {
    &&& r.source@ == "modrinth"@
    &&& r.fetched_at@ == now
    &&& string_views(r.categories@) == string_views(project.categories@)
    &&& string_views(r.additional_categories@) == string_views(project.additional_categories@)
    &&& string_views(r.loaders@) == with_version_items(string_views(project.loaders@), version_loaders(version))
    &&& string_views(r.game_versions@) == with_version_items(
        string_views(project.game_versions@),
        version_game_versions(version),
    )
    &&& r.client_side@ == text_field(project.client_side)
    &&& r.server_side@ == text_field(project.server_side)
}

pub fn build_modrinth_labels(project: &ModrinthProjectFields, version: Option<&ModrinthVersionFields>, now: &str) -> (r: ProviderLabelsStore)
    ensures
        is_modrinth_labels(r, *project, version, now@),
{
    let mut loaders = copy_strings(&project.loaders);
    let mut game_versions = copy_strings(&project.game_versions);
    if let Some(v) = version {
        merge_unique(&mut loaders, copy_strings(&v.loaders));
        merge_unique(&mut game_versions, copy_strings(&v.game_versions));
    }
    ProviderLabelsStore {
        fetched_at: now.to_string(),
        source: "modrinth".to_string(),
        client_side: text_field_exec(&project.client_side),
        server_side: text_field_exec(&project.server_side),
        categories: copy_strings(&project.categories),
        additional_categories: copy_strings(&project.additional_categories),
        loaders,
        game_versions,
    }
}

// ---------------------------------------------------------------------------
// CurseForge
// ---------------------------------------------------------------------------

/// A category of a CurseForge project: its slug and its name, where given.
pub struct CurseforgeCategory {
    pub slug: Option<String>,
    pub name: Option<String>,
}

/// An entry of a file's sortable game versions: the `gameVersionName` field
/// (outer `None` where the field is missing, inner `None` where it holds no
/// text) and the text of the `gameVersion` field.
pub struct CurseforgeSortableVersion {
    pub game_version_name: Option<Option<String>>,
    pub game_version: Option<String>,
}

/// A CurseForge file.
pub struct CurseforgeFile {
    pub id: Option<i64>,
    pub game_versions: Vec<String>,
    pub sortable_game_versions: Vec<CurseforgeSortableVersion>,
}

/// An entry of a project's latest file indexes.
pub struct CurseforgeFileIndex {
    pub file_id: Option<i64>,
    pub mod_loader: Option<i64>,
    pub game_version: Option<String>,
}

/// The `data` of a CurseForge project.
pub struct CurseforgeProject {
    pub categories: Vec<CurseforgeCategory>,
    pub latest_files_indexes: Vec<CurseforgeFileIndex>,
    pub latest_files: Vec<CurseforgeFile>,
    pub latest_early_access_files_indexes: Vec<CurseforgeFile>,
}

/// The name of a sortable game version: `gameVersionName` where the field is
/// there, else `gameVersion`; empty where it holds no text.
pub open spec fn sortable_name(e: CurseforgeSortableVersion) -> Seq<char> {
    match e.game_version_name {
        Some(inner) => match inner {
            Some(s) => s@,
            None => Seq::empty(),
        },
        None => match e.game_version {
            Some(s) => s@,
            None => Seq::empty(),
        },
    }
}

/// One more name seen for a file: `client` and `server` (in any case) mark
/// the sides.
pub open spec fn side_step(acc: (bool, bool), name: Seq<char>) -> (bool, bool) {
    if eq_ignore_case(name, "client"@) {
        (true, acc.1)
    } else if eq_ignore_case(name, "server"@) {
        (acc.0, true)
    } else {
        acc
    }
}

pub open spec fn sortable_side_tags(acc: (bool, bool), entries: Seq<CurseforgeSortableVersion>) -> (bool, bool)
    decreases entries.len(),
{
    if entries.len() == 0 {
        acc
    } else {
        side_step(sortable_side_tags(acc, entries.drop_last()), sortable_name(entries.last()))
    }
}

/// The sides a file is tagged for, by its game versions and then its
/// sortable game versions.
pub open spec fn file_side_tags(f: CurseforgeFile) -> (bool, bool) {
    sortable_side_tags(tags_from_versions(string_views(f.game_versions@)), f.sortable_game_versions@)
}

fn sortable_name_exec(e: &CurseforgeSortableVersion) -> (r: Vec<char>)
    ensures
        r@ == sortable_name(*e),
{
    match &e.game_version_name {
        Some(inner) => match inner {
            Some(s) => chars_of(s.as_str()),
            None => Vec::new(),
        },
        None => match &e.game_version {
            Some(s) => chars_of(s.as_str()),
            None => Vec::new(),
        },
    }
}

pub fn curseforge_side_tags_from_file(file: &CurseforgeFile) -> (r: CurseforgeSideTags)
    ensures
        (r.client, r.server) == file_side_tags(*file),
{
    let mut tags = crate::provider_labels::curseforge_side_tags_from_game_versions(&file.game_versions);
    let ghost start = (tags.client, tags.server);
    let entries = &file.sortable_game_versions;
    let client = chars_of("client");
    let server = chars_of("server");
    let mut i: usize = 0;
    while i < entries.len()
        invariant
            i <= entries@.len(),
            start == tags_from_versions(string_views(file.game_versions@)),
            entries@ == file.sortable_game_versions@,
            client@ == "client"@,
            server@ == "server"@,
            (tags.client, tags.server) == sortable_side_tags(start, entries@.take(i as int)),
        decreases entries@.len() - i,
    {
        assert(entries@.take(i + 1).drop_last() =~= entries@.take(i as int));
        let name = sortable_name_exec(&entries[i]);
        if eq_ignore_case_chars(&name, &client) {
            tags.client = true;
        } else if eq_ignore_case_chars(&name, &server) {
            tags.server = true;
        }
        i = i + 1;
    }
    assert(entries@.take(entries@.len() as int) =~= entries@);
    tags
}

/// The sides any of the files is tagged for.
pub open spec fn files_side_tags(files: Seq<CurseforgeFile>) -> (bool, bool)
    decreases files.len(),
{
    if files.len() == 0 {
        (false, false)
    } else {
        let acc = files_side_tags(files.drop_last());
        let t = file_side_tags(files.last());
        (acc.0 || t.0, acc.1 || t.1)
    }
}

fn files_side_tags_exec(files: &Vec<CurseforgeFile>, tags: &mut CurseforgeSideTags)
    ensures
        final(tags).client == (old(tags).client || files_side_tags(files@).0),
        final(tags).server == (old(tags).server || files_side_tags(files@).1),
{
    let mut i: usize = 0;
    while i < files.len()
        invariant
            i <= files@.len(),
            tags.client == (old(tags).client || files_side_tags(files@.take(i as int)).0),
            tags.server == (old(tags).server || files_side_tags(files@.take(i as int)).1),
        decreases files@.len() - i,
    {
        assert(files@.take(i + 1).drop_last() =~= files@.take(i as int));
        let t = curseforge_side_tags_from_file(&files[i]);
        crate::provider_labels::merge_curseforge_side_tags(tags, t);
        i = i + 1;
    }
    assert(files@.take(files@.len() as int) =~= files@);
}

/// Client/server support inferred from files: none where no file is tagged
/// for a side.
pub open spec fn inferred_sides(t: (bool, bool)) -> Option<(Seq<char>, Seq<char>)> {
    if !t.0 && !t.1 {
        None
    } else {
        Some(sides_from_tags(t.0, t.1))
    }
}

pub open spec fn pair_view(o: Option<(String, String)>) -> Option<(Seq<char>, Seq<char>)> {
    match o {
        Some(p) => Some((p.0@, p.1@)),
        None => None,
    }
}

pub fn infer_curseforge_side_from_file_entries(files: &Vec<CurseforgeFile>) -> (r: Option<(String, String)>)
    ensures
        pair_view(r) == inferred_sides(files_side_tags(files@)),
{
    let mut tags = CurseforgeSideTags { client: false, server: false };
    files_side_tags_exec(files, &mut tags);
    if !tags.client && !tags.server {
        return None;
    }
    let p = curseforge_sides_from_tags(tags);
    Some(p)
}

/// The files of a project that tell its sides: its latest files, then its
/// latest early-access files.
pub open spec fn project_files(p: CurseforgeProject) -> Seq<CurseforgeFile> {
    p.latest_files@ + p.latest_early_access_files_indexes@
}

pub fn infer_curseforge_side_from_project_data(project: &CurseforgeProject) -> (r: Option<(String, String)>)
    ensures
        pair_view(r) == inferred_sides(files_side_tags(project_files(*project))),
{
    let mut tags = CurseforgeSideTags { client: false, server: false };
    files_side_tags_exec(&project.latest_files, &mut tags);
    files_side_tags_exec(&project.latest_early_access_files_indexes, &mut tags);
    proof {
        lemma_files_side_tags_concat(project.latest_files@, project.latest_early_access_files_indexes@);
    }
    if !tags.client && !tags.server {
        return None;
    }
    let p = curseforge_sides_from_tags(tags);
    Some(p)
}

proof fn lemma_files_side_tags_concat(a: Seq<CurseforgeFile>, b: Seq<CurseforgeFile>)
    ensures
        files_side_tags(a + b).0 == (files_side_tags(a).0 || files_side_tags(b).0),
        files_side_tags(a + b).1 == (files_side_tags(a).1 || files_side_tags(b).1),
    decreases b.len(),
{
    if b.len() == 0 {
        assert(a + b =~= a);
    } else {
        lemma_files_side_tags_concat(a, b.drop_last());
        assert((a + b).drop_last() =~= a + b.drop_last());
        assert((a + b).last() == b.last());
    }
}

/// The category slugs of a project: each category by its slug, else by its
/// name, without repeats.
pub open spec fn category_list(items: Seq<CurseforgeCategory>) -> Seq<Seq<char>>
    decreases items.len(),
{
    if items.len() == 0 {
        Seq::empty()
    } else {
        let acc = category_list(items.drop_last());
        let item = items.last();
        match item.slug {
            Some(s) => push_unique_value(acc, slug_of_category(s@)),
            None => match item.name {
                Some(n) => push_unique_value(acc, slug_of_category(n@)),
                None => acc,
            },
        }
    }
}

fn category_list_exec(items: &Vec<CurseforgeCategory>) -> (r: Vec<String>)
    ensures
        string_views(r@) == category_list(items@),
{
    let mut r: Vec<String> = Vec::new();
    let mut i: usize = 0;
    while i < items.len()
        invariant
            i <= items@.len(),
            string_views(r@) == category_list(items@.take(i as int)),
        decreases items@.len() - i,
    {
        assert(items@.take(i + 1).drop_last() =~= items@.take(i as int));
        assert(items@.take(i + 1).last() == items@[i as int]);
        match &items[i].slug {
            Some(s) => push_unique(&mut r, category_slug(s.as_str())),
            None => match &items[i].name {
                Some(n) => push_unique(&mut r, category_slug(n.as_str())),
                None => {},
            },
        }
        i = i + 1;
    }
    assert(items@.take(items@.len() as int) =~= items@);
    r
}

/// The game versions of a file, without the side markers, without repeats.
pub open spec fn file_versions(acc: Seq<Seq<char>>, versions: Seq<Seq<char>>) -> Seq<Seq<char>>
    decreases versions.len(),
{
    if versions.len() == 0 {
        acc
    } else {
        let prev = file_versions(acc, versions.drop_last());
        let v = versions.last();
        if eq_ignore_case(v, "client"@) || eq_ignore_case(v, "server"@) {
            prev
        } else {
            push_unique_value(prev, v)
        }
    }
}

/// What the project's file indexes for the given file add: their mod loaders
/// (by name) and their game versions.
pub open spec fn index_items(acc: (Seq<Seq<char>>, Seq<Seq<char>>), indexes: Seq<CurseforgeFileIndex>, file_id: i64) -> (Seq<Seq<char>>, Seq<Seq<char>>)
    decreases indexes.len(),
{
    if indexes.len() == 0 {
        acc
    } else {
        let prev = index_items(acc, indexes.drop_last(), file_id);
        let ix = indexes.last();
        if ix.file_id == Some(file_id) {
            let loaders = match ix.mod_loader {
                Some(l) => match loader_name_of(l) {
                    Some(n) => push_unique_value(prev.0, n),
                    None => prev.0,
                },
                None => prev.0,
            };
            let versions = match ix.game_version {
                Some(v) => push_unique_value(prev.1, v@),
                None => prev.1,
            };
            (loaders, versions)
        } else {
            prev
        }
    }
}

/// Loaders and game versions from a file and the project's indexes of it.
pub open spec fn file_items(project: CurseforgeProject, file: Option<&CurseforgeFile>) -> (Seq<Seq<char>>, Seq<Seq<char>>) {
    match file {
        Some(f) => {
            let versions = file_versions(Seq::empty(), string_views(f.game_versions@));
            match f.id {
                Some(id) => index_items((Seq::empty(), versions), project.latest_files_indexes@, id),
                None => (Seq::empty(), versions),
            }
        },
        None => (Seq::empty(), Seq::empty()),
    }
}

/// The sides a file gives: by its tags, as `sides_from_tags` says.
pub open spec fn file_sides(file: Option<&CurseforgeFile>) -> (Seq<char>, Seq<char>) {
    match file {
        Some(f) => sides_from_tags(file_side_tags(*f).0, file_side_tags(*f).1),
        None => sides_from_tags(false, false),
    }
}

fn file_versions_exec(f: &CurseforgeFile) -> (r: Vec<String>)
    ensures
        string_views(r@) == file_versions(Seq::empty(), string_views(f.game_versions@)),
{
    let mut r: Vec<String> = Vec::new();
    let ghost gv = string_views(f.game_versions@);
    let client = chars_of("client");
    let server = chars_of("server");
    let mut i: usize = 0;
    while i < f.game_versions.len()
        invariant
            i <= f.game_versions@.len(),
            gv == string_views(f.game_versions@),
            client@ == "client"@,
            server@ == "server"@,
            string_views(r@) == file_versions(Seq::empty(), gv.take(i as int)),
        decreases f.game_versions@.len() - i,
    {
        assert(gv.take(i + 1).drop_last() =~= gv.take(i as int));
        assert(gv.take(i + 1).last() == f.game_versions@[i as int]@);
        let v = chars_of(f.game_versions[i].as_str());
        if !eq_ignore_case_chars(&v, &client) && !eq_ignore_case_chars(&v, &server) {
            push_unique(&mut r, f.game_versions[i].clone());
        }
        i = i + 1;
    }
    assert(gv.take(gv.len() as int) =~= gv);
    r
}

fn index_items_exec(
    loaders: &mut Vec<String>,
    versions: &mut Vec<String>,
    indexes: &Vec<CurseforgeFileIndex>,
    file_id: i64,
)
    ensures
        (string_views(final(loaders)@), string_views(final(versions)@)) == index_items(
            (string_views(old(loaders)@), string_views(old(versions)@)),
            indexes@,
            file_id,
        ),
{
    let ghost start = (string_views(loaders@), string_views(versions@));
    let mut i: usize = 0;
    while i < indexes.len()
        invariant
            i <= indexes@.len(),
            start == (string_views(old(loaders)@), string_views(old(versions)@)),
            (string_views(loaders@), string_views(versions@)) == index_items(start, indexes@.take(i as int), file_id),
        decreases indexes@.len() - i,
    {
        assert(indexes@.take(i + 1).drop_last() =~= indexes@.take(i as int));
        assert(indexes@.take(i + 1).last() == indexes@[i as int]);
        let ix = &indexes[i];
        if ix.file_id == Some(file_id) {
            match ix.mod_loader {
                Some(l) => match curseforge_loader_name(l) {
                    Some(n) => push_unique(loaders, n),
                    None => {},
                },
                None => {},
            }
            match &ix.game_version {
                Some(v) => push_unique(versions, v.clone()),
                None => {},
            }
        }
        i = i + 1;
    }
    assert(indexes@.take(indexes@.len() as int) =~= indexes@);
}

/// Labels from a CurseForge project's `data` and, where it is known, the
/// installed file's `data`; none without project data.
pub open spec fn is_curseforge_labels(s: ProviderLabelsStore, p: CurseforgeProject, file: Option<&CurseforgeFile>, now: Seq<char>) -> bool {
    &&& s.source@ == "curseforge"@
    &&& s.fetched_at@ == now
    &&& string_views(s.categories@) == category_list(p.categories@)
    &&& s.additional_categories@.len() == 0
    &&& string_views(s.loaders@) == file_items(p, file).0
    &&& string_views(s.game_versions@) == file_items(p, file).1
    &&& (s.client_side@, s.server_side@) == file_sides(file)
}

pub fn build_curseforge_labels(project: Option<&CurseforgeProject>, file: Option<&CurseforgeFile>, now: &str) -> (r: Option<ProviderLabelsStore>)
    ensures
        r is Some <==> project is Some,
        r matches Some(s) ==> is_curseforge_labels(s, *project.unwrap(), file, now@),
{
    let data = match project {
        Some(d) => d,
        None => return None,
    };
    let categories = category_list_exec(&data.categories);
    let mut loaders: Vec<String> = Vec::new();
    let mut game_versions: Vec<String> = Vec::new();
    let mut tags = CurseforgeSideTags { client: false, server: false };
    assert(string_views(loaders@) =~= Seq::<Seq<char>>::empty());
    assert(string_views(game_versions@) =~= Seq::<Seq<char>>::empty());
    if let Some(f) = file {
        tags = curseforge_side_tags_from_file(f);
        game_versions = file_versions_exec(f);
        if let Some(id) = f.id {
            index_items_exec(&mut loaders, &mut game_versions, &data.latest_files_indexes, id);
        }
    }
    let (client_side, server_side) = curseforge_sides_from_tags(tags);
    Some(
        ProviderLabelsStore {
            fetched_at: now.to_string(),
            source: "curseforge".to_string(),
            client_side,
            server_side,
            categories,
            additional_categories: Vec::new(),
            loaders,
            game_versions,
        },
    )
}

/// The sides after settling ambiguous CurseForge ones: from a definitive
/// Modrinth fallback, else from the project's latest files, else from the
/// listed project files, else optional on both sides where nothing is known.
pub open spec fn settled_sides(
    store: ProviderLabelsStore,
    fallback: Option<&ProviderLabelsStore>,
    project: Option<&CurseforgeProject>,
    files: Option<&Vec<CurseforgeFile>>,
) -> (Seq<char>, Seq<char>) {
    let own = (store.client_side@, store.server_side@);
    if !side_ambiguous(store) {
        own
    } else {
        let from_fallback = match fallback {
            Some(m) => m.client_side@.len() > 0 || m.server_side@.len() > 0,
            None => false,
        };
        let s1 = if from_fallback {
            (fallback.unwrap().client_side@, fallback.unwrap().server_side@)
        } else {
            own
        };
        let s1_ambiguous = (s1.0.len() == 0 && s1.1.len() == 0) || (s1.0 == "optional"@ && s1.1 == "optional"@);
        if from_fallback && !s1_ambiguous {
            s1
        } else if project is Some && inferred_sides(files_side_tags(project_files(*project.unwrap()))) is Some {
            inferred_sides(files_side_tags(project_files(*project.unwrap()))).unwrap()
        } else if files is Some && inferred_sides(files_side_tags(files.unwrap()@)) is Some {
            inferred_sides(files_side_tags(files.unwrap()@)).unwrap()
        } else if s1.0.len() == 0 && s1.1.len() == 0 {
            ("optional"@, "optional"@)
        } else {
            s1
        }
    }
}

/// Settles CurseForge labels whose side is ambiguous; nothing but the sides
/// changes.
pub fn finalize_curseforge_labels(
    store: ProviderLabelsStore,
    modrinth_fallback: Option<&ProviderLabelsStore>,
    project: Option<&CurseforgeProject>,
    project_files: Option<&Vec<CurseforgeFile>>,
) -> (r: ProviderLabelsStore)
    ensures
        (r.client_side@, r.server_side@) == settled_sides(store, modrinth_fallback, project, project_files),
        r.fetched_at == store.fetched_at,
        r.source == store.source,
        r.categories == store.categories,
        r.additional_categories == store.additional_categories,
        r.loaders == store.loaders,
        r.game_versions == store.game_versions,
{
    let mut store = store;
    if !curseforge_side_is_ambiguous(&store) {
        return store;
    }
    if let Some(mr) = modrinth_fallback {
        if provider_side_is_definitive(mr) {
            store.client_side = mr.client_side.clone();
            store.server_side = mr.server_side.clone();
            if !curseforge_side_is_ambiguous(&store) {
                return store;
            }
        }
    }
    if let Some(data) = project {
        if let Some((client, server)) = infer_curseforge_side_from_project_data(data) {
            store.client_side = client;
            store.server_side = server;
            return store;
        }
    }
    if let Some(files) = project_files {
        if let Some((client, server)) = infer_curseforge_side_from_file_entries(files) {
            store.client_side = client;
            store.server_side = server;
            return store;
        }
    }
    crate::provider_labels::apply_curseforge_optional_side_default(&mut store);
    store
}

} // verus!
