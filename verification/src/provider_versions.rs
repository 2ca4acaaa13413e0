//! The versions of a project on Modrinth or CurseForge, and switching a mod
//! to another version.
use vstd::prelude::*;
use crate::text::{chars_of, eq_str, lemma_seq_lt_asymmetric, lemma_seq_lt_total, lemma_seq_lt_transitive, opt_view, seq_lt, str_lt, string_views, trim, trim_string};
use crate::updates::{curseforge_loader_type_of, curseforge_loaders_from_versions, curseforge_release_type, is_loader_name, loaders_from_versions, release_type_of, ProviderVersion};
use crate::mods::{find_tag, has_key, keys_unique, lemma_tag_for, tag_for};
use crate::mod_names::{installed_version, installed_version_from_filename};
use crate::source_switch::{clean, clean_opt, clean_option, clean_string};
use crate::instance_meta::{filter_of, fits_target, target_has_filters, version_matches_target, InstanceTarget};
use crate::install_catalog::{date_before, eligible};
use crate::tags::{ModTags, TagFile};
use crate::tag_updates::{previous_is, stored_under, with_alias_added};

verus! {

// ---------------------------------------------------------------------------
// Versions as the providers describe them
// ---------------------------------------------------------------------------

/// A file of a Modrinth version.
pub struct ModrinthFileRecord {
    pub primary: Option<bool>,
    pub filename: Option<String>,
    pub url: Option<String>,
    pub size: Option<u64>,
}

/// A Modrinth version, field by field (`files` is `None` where the list is
/// missing).
pub struct ModrinthVersionRecord {
    pub id: Option<String>,
    pub version_number: Option<String>,
    pub name: Option<String>,
    pub files: Option<Vec<ModrinthFileRecord>>,
    pub game_versions: Vec<String>,
    pub loaders: Vec<String>,
    pub date_published: Option<String>,
    pub downloads: Option<u64>,
    pub version_type: Option<String>,
}

/// The file of a version that is installed: the first primary one, else the
/// first one.
pub open spec fn chosen_file(files: Seq<ModrinthFileRecord>) -> Option<int> {
    if exists|i: int| 0 <= i < files.len() && (#[trigger] files[i]).primary == Some(true) {
        Some(choose|i: int|
            0 <= i < files.len() && (#[trigger] files[i]).primary == Some(true) && forall|j: int|
                0 <= j < i ==> (#[trigger] files[j]).primary != Some(true))
    } else if files.len() > 0 {
        Some(0)
    } else {
        None
    }
}

fn chosen_file_exec(files: &Vec<ModrinthFileRecord>) -> (r: Option<usize>)
    ensures
        match r {
            Some(i) => i < files@.len() && ((files@[i as int].primary == Some(true) && (forall|j: int|
                0 <= j < i ==> (#[trigger] files@[j]).primary != Some(true))) || (i == 0 && (forall|j: int|
                0 <= j < files@.len() ==> (#[trigger] files@[j]).primary != Some(true)))),
            None => files@.len() == 0,
        },
{
    let mut i: usize = 0;
    while i < files.len()
        invariant
            i <= files@.len(),
            forall|j: int| 0 <= j < i ==> (#[trigger] files@[j]).primary != Some(true),
        decreases files@.len() - i,
    {
        if files[i].primary == Some(true) {
            return Some(i);
        }
        i = i + 1;
    }
    if files.len() > 0 {
        Some(0)
    } else {
        None
    }
}

fn or_text(o: &Option<String>, fallback: &String) -> (r: String)
    ensures
        r@ == match *o {
            Some(s) => s@,
            None => fallback@,
        },
{
    match o {
        Some(s) => s.clone(),
        None => fallback.clone(),
    }
}

fn copy_strings(v: &Vec<String>) -> (r: Vec<String>)
    ensures
        string_views(r@) == string_views(v@),
{
    let mut r: Vec<String> = Vec::new();
    let mut i: usize = 0;
    while i < v.len()
        invariant
            i <= v@.len(),
            string_views(r@) == string_views(v@).take(i as int),
        decreases v@.len() - i,
    {
        let ghost before = r@;
        r.push(v[i].clone());
        assert(string_views(r@) =~= string_views(before).push(v@[i as int]@));
        assert(string_views(v@).take(i + 1) =~= string_views(v@).take(i as int).push(v@[i as int]@));
        i = i + 1;
    }
    assert(string_views(v@).take(v@.len() as int) =~= string_views(v@));
    r
}

fn clone_opt(o: &Option<String>) -> (r: Option<String>)
    ensures
        opt_view(r) == opt_view(*o),
{
    match o {
        Some(s) => Some(s.clone()),
        None => None,
    }
}

/// The version a Modrinth record describes: none without an id or a file.
pub open spec fn modrinth_version_is(rec: ModrinthVersionRecord, v: ProviderVersion) -> bool {
    let number = match rec.version_number {
        Some(n) => n@,
        None => "Без версии"@,
    };
    let files = rec.files.unwrap()@;
    let f = files[chosen_file(files).unwrap()];
    &&& Some(v.id@) == opt_view(rec.id)
    &&& v.file_id is None
    &&& v.version_number@ == number
    &&& v.name@ == match rec.name {
        Some(n) => n@,
        None => number,
    }
    &&& v.filename@ == match f.filename {
        Some(n) => n@,
        None => number,
    }
    &&& opt_view(v.download_url) == clean_opt(f.url)
    &&& string_views(v.game_versions@) == string_views(rec.game_versions@)
    &&& string_views(v.loaders@) == string_views(rec.loaders@)
    &&& opt_view(v.date_published) == opt_view(rec.date_published)
    &&& v.downloads == rec.downloads
    &&& v.size == f.size
    &&& opt_view(v.release_type) == opt_view(rec.version_type)
}

pub fn modrinth_version_from_json(rec: &ModrinthVersionRecord) -> (r: Option<ProviderVersion>)
    ensures
        r is Some <==> (rec.id is Some && rec.files is Some && rec.files.unwrap()@.len() > 0),
        r matches Some(v) ==> modrinth_version_is(*rec, v),
{
    let id = match &rec.id {
        Some(i) => i.clone(),
        None => return None,
    };
    let number = match &rec.version_number {
        Some(n) => n.clone(),
        None => "Без версии".to_string(),
    };
    let name = or_text(&rec.name, &number);
    let files = match &rec.files {
        Some(f) => f,
        None => return None,
    };
    let fi = match chosen_file_exec(files) {
        Some(i) => i,
        None => return None,
    };
    proof {
        let fs = files@;
        if exists|i: int| 0 <= i < fs.len() && (#[trigger] fs[i]).primary == Some(true) {
            let c = choose|i: int|
                0 <= i < fs.len() && (#[trigger] fs[i]).primary == Some(true) && forall|j: int|
                    0 <= j < i ==> (#[trigger] fs[j]).primary != Some(true);
            let w = choose|i: int| 0 <= i < fs.len() && (#[trigger] fs[i]).primary == Some(true);
            if fs[fi as int].primary == Some(true) {
                if c < fi {
                    assert(fs[c].primary != Some(true));
                } else if c > fi {
                }
            } else {
                assert(fs[w].primary != Some(true));
            }
            assert(chosen_file(fs) == Some(fi as int));
        }
    }
    let f = &files[fi];
    let filename = or_text(&f.filename, &number);
    Some(
        ProviderVersion {
            id,
            file_id: None,
            version_number: number,
            name,
            filename,
            download_url: clean_option(&f.url),
            game_versions: copy_strings(&rec.game_versions),
            loaders: copy_strings(&rec.loaders),
            date_published: clone_opt(&rec.date_published),
            downloads: rec.downloads,
            size: f.size,
            release_type: clone_opt(&rec.version_type),
        },
    )
}

/// A CurseForge file, field by field; `display_name` and `file_length` are
/// `None` where the field is missing and `Some(None)` where it holds no value
/// of the expected kind.
pub struct CurseforgeFileRecord {
    pub id: Option<i64>,
    pub display_name: Option<Option<String>>,
    pub name: Option<String>,
    pub file_name: Option<String>,
    pub game_versions: Vec<String>,
    pub download_url: Option<String>,
    pub file_date: Option<String>,
    pub download_count: Option<u64>,
    pub file_length: Option<Option<u64>>,
    pub file_size_on_disk: Option<u64>,
    pub release_type: Option<u64>,
}

/// The shown name of a file: its display name where that field is there,
/// else its name; a placeholder where there is no text.
pub open spec fn file_display_name(rec: CurseforgeFileRecord) -> Seq<char> {
    let text = match rec.display_name {
        Some(inner) => opt_view(inner),
        None => opt_view(rec.name),
    };
    match text {
        Some(t) => t,
        None => "Без версии"@,
    }
}

/// The game versions of a file without the loader names.
pub open spec fn minecraft_versions(versions: Seq<Seq<char>>) -> Seq<Seq<char>>
    decreases versions.len(),
{
    if versions.len() == 0 {
        Seq::empty()
    } else if curseforge_loader_type_of(versions.last()) is Some {
        minecraft_versions(versions.drop_last())
    } else {
        minecraft_versions(versions.drop_last()).push(versions.last())
    }
}

pub open spec fn curseforge_version_is(rec: CurseforgeFileRecord, v: ProviderVersion) -> bool {
    let id = crate::prefetch::i64_text(rec.id.unwrap());
    let shown = file_display_name(rec);
    &&& v.id@ == id
    &&& opt_view(v.file_id) == Some(id)
    &&& v.version_number@ == shown
    &&& v.name@ == shown
    &&& v.filename@ == match rec.file_name {
        Some(f) => f@,
        None => shown,
    }
    &&& opt_view(v.download_url) == clean_opt(rec.download_url)
    &&& string_views(v.game_versions@) == minecraft_versions(string_views(rec.game_versions@))
    &&& string_views(v.loaders@) == loaders_from_versions(string_views(rec.game_versions@))
    &&& opt_view(v.date_published) == opt_view(rec.file_date)
    &&& v.downloads == rec.download_count
    &&& v.size == match rec.file_length {
        Some(inner) => inner,
        None => rec.file_size_on_disk,
    }
    &&& opt_view(v.release_type) == match rec.release_type {
        Some(t) => Some(release_type_of(t)),
        None => None,
    }
}

pub fn curseforge_version_from_json(rec: &CurseforgeFileRecord) -> (r: Option<ProviderVersion>)
    ensures
        r is Some <==> rec.id is Some,
        r matches Some(v) ==> curseforge_version_is(*rec, v),
{
    let n = match rec.id {
        Some(n) => n,
        None => return None,
    };
    let id = crate::prefetch::i64_string(n);
    let text = match &rec.display_name {
        Some(inner) => clone_opt(inner),
        None => clone_opt(&rec.name),
    };
    let shown = match text {
        Some(t) => t,
        None => "Без версии".to_string(),
    };
    let filename = or_text(&rec.file_name, &shown);
    let ghost gv = string_views(rec.game_versions@);
    let mut minecraft: Vec<String> = Vec::new();
    let mut i: usize = 0;
    while i < rec.game_versions.len()
        invariant
            i <= rec.game_versions@.len(),
            gv == string_views(rec.game_versions@),
            string_views(minecraft@) == minecraft_versions(gv.take(i as int)),
        decreases rec.game_versions@.len() - i,
    {
        assert(gv.take(i + 1).drop_last() =~= gv.take(i as int));
        assert(gv.take(i + 1).last() == rec.game_versions@[i as int]@);
        if !is_loader_name(rec.game_versions[i].as_str()) {
            let ghost before = minecraft@;
            minecraft.push(rec.game_versions[i].clone());
            assert(string_views(minecraft@) =~= string_views(before).push(rec.game_versions@[i as int]@));
        }
        i = i + 1;
    }
    assert(gv.take(gv.len() as int) =~= gv);
    let size = match rec.file_length {
        Some(inner) => inner,
        None => rec.file_size_on_disk,
    };
    let release = match rec.release_type {
        Some(t) => Some(curseforge_release_type(t)),
        None => None,
    };
    Some(
        ProviderVersion {
            id: id.clone(),
            file_id: Some(id),
            version_number: shown.clone(),
            name: shown,
            filename,
            download_url: clean_option(&rec.download_url),
            game_versions: minecraft,
            loaders: curseforge_loaders_from_versions(rec.game_versions.as_slice()),
            date_published: clone_opt(&rec.file_date),
            downloads: rec.download_count,
            size,
            release_type: release,
        },
    )
}

// ---------------------------------------------------------------------------
// Listing versions
// ---------------------------------------------------------------------------

/// The project whose versions are listed: the one asked for, else the one the
/// mod is linked to on that provider.
pub open spec fn listed_project(requested: Option<String>, tags: Seq<(String, ModTags)>, key: Seq<char>, source: Seq<char>) -> Option<Seq<char>> {
    if clean_opt(requested) is Some {
        clean_opt(requested)
    } else if has_key(tags, key) {
        if source == "modrinth"@ {
            clean(tag_for(tags, key).modrinth_id@)
        } else if source == "curseforge"@ {
            clean(tag_for(tags, key).curseforge_id@)
        } else {
            None
        }
    } else {
        None
    }
}

pub fn versions_project_id(requested: &Option<String>, tags: &TagFile, key: &str, source: &str) -> (r: Result<String, String>)
    requires
        keys_unique(tags.mods@),
    ensures
        match listed_project(*requested, tags.mods@, key@, source@) {
            Some(p) => r matches Ok(x) && x@ == p,
            None => r matches Err(e) && e@ == "Сначала выбери проект мода у поставщика."@,
        },
{
    if let Some(p) = clean_option(requested) {
        return Ok(p);
    }
    let found = match find_tag(&tags.mods, key) {
        Some(i) => {
            proof {
                lemma_tag_for(tags.mods@, key@, i as int);
            }
            let src = chars_of(source);
            if eq_str(&src, "modrinth") {
                clean_string(tags.mods[i].1.modrinth_id.as_str())
            } else if eq_str(&src, "curseforge") {
                clean_string(tags.mods[i].1.curseforge_id.as_str())
            } else {
                None
            }
        },
        None => None,
    };
    match found {
        Some(p) => Ok(p),
        None => Err("Сначала выбери проект мода у поставщика.".to_string()),
    }
}

/// A listing filtered by loader that found nothing is repeated without the
/// loader.
pub fn loader_fallback_needed(found_any: bool, target: &InstanceTarget) -> (r: bool)
    ensures
        r == (!found_any && clean_opt(target.loader) is Some),
{
    !found_any && clean_option(&target.loader).is_some()
}

/// The versions that fit the instance, in their order.
pub open spec fn fitting(vs: Seq<ProviderVersion>, target: InstanceTarget) -> Seq<ProviderVersion>
    decreases vs.len(),
{
    if vs.len() == 0 {
        Seq::empty()
    } else if eligible(vs.last(), target) {
        fitting(vs.drop_last(), target).push(vs.last())
    } else {
        fitting(vs.drop_last(), target)
    }
}

/// Versions newest first: none is published after one before it.
pub open spec fn newest_first(vs: Seq<ProviderVersion>) -> bool {
    forall|i: int, j: int| 0 <= i < j < vs.len() ==> !date_before(#[trigger] vs[i].date_published, #[trigger] vs[j].date_published)
}

proof fn lemma_date_trans(a: Option<String>, b: Option<String>, c: Option<String>)
    requires
        date_before(a, b),
        date_before(b, c),
    ensures
        date_before(a, c),
{
    if let (Some(x), Some(y), Some(z)) = (a, b, c) {
        lemma_seq_lt_transitive(x@, y@, z@);
    }
}

proof fn lemma_date_asym(a: Option<String>, b: Option<String>)
    ensures
        !(date_before(a, b) && date_before(b, a)),
{
    if let (Some(x), Some(y)) = (a, b) {
        lemma_seq_lt_asymmetric(x@, y@);
    }
}

fn date_before_exec(a: &Option<String>, b: &Option<String>) -> (r: bool)
    ensures
        r == date_before(*a, *b),
{
    match (a, b) {
        (None, Some(_)) => true,
        (Some(x), Some(y)) => str_lt(x.as_str(), y.as_str()),
        _ => false,
    }
}

/// `out[k]` is `input[idx[k]]`, each input position is used once, and of two
/// versions published at the same time the one that came first stays first.
pub open spec fn stable_by_date(input: Seq<ProviderVersion>, out: Seq<ProviderVersion>, idx: Seq<int>) -> bool {
    &&& idx.len() == out.len()
    &&& forall|k: int| 0 <= k < out.len() ==> 0 <= #[trigger] idx[k] < input.len() && out[k] == input[idx[k]]
    &&& forall|a: int, b: int|
        0 <= a < b < out.len() ==> #[trigger] idx[a] != #[trigger] idx[b] && (opt_view(out[a].date_published)
            == opt_view(out[b].date_published) ==> idx[a] < idx[b])
}

/// The versions that fit the instance, newest first; versions published at
/// the same time keep their order.
pub fn versions_for_listing(versions: Vec<ProviderVersion>, target: &InstanceTarget) -> (r: Vec<ProviderVersion>)
    ensures
        r@.to_multiset() == fitting(versions@, *target).to_multiset(),
        newest_first(r@),
        exists|idx: Seq<int>| #[trigger] stable_by_date(fitting(versions@, *target), r@, idx),
{
    broadcast use vstd::seq_lib::group_to_multiset_ensures;

    let filtering = target_has_filters(target);
    let mut rest = versions;
    let ghost all = rest@;
    let n = rest.len();
    let mut out: Vec<ProviderVersion> = Vec::new();
    let mut done: usize = 0;
    let ghost mut idx: Seq<int> = Seq::empty();
    assert(all.take(0) =~= Seq::<ProviderVersion>::empty());
    while rest.len() > 0
        invariant
            done + rest@.len() == n,
            n == all.len(),
            stable_by_date(fitting(all.take(done as int), *target), out@, idx),
            rest@ == all.subrange(done as int, n as int),
            filtering == (filter_of(opt_view(target.minecraft_version)) is Some || filter_of(opt_view(target.loader)) is Some),
            out@.to_multiset() == fitting(all.take(done as int), *target).to_multiset(),
            newest_first(out@),
        decreases rest@.len(),
    {
        let x = rest.remove(0);
        proof {
            assert(x == all[done as int]);
            assert(all.take(done + 1).drop_last() =~= all.take(done as int));
            assert(all.take(done + 1).last() == x);
        }
        let keep = !filtering || version_matches_target(x.game_versions.as_slice(), x.loaders.as_slice(), target);
        proof {
            assert(keep == eligible(x, *target));
            if keep {
                assert(fitting(all.take(done + 1), *target) == fitting(all.take(done as int), *target).push(x));
                vstd::seq_lib::to_multiset_build(fitting(all.take(done as int), *target), x);
            } else {
                assert(fitting(all.take(done + 1), *target) == fitting(all.take(done as int), *target));
            }
        }
        let ghost fit = fitting(all.take(done as int), *target);
        if keep {
            let mut pos: usize = 0;
            while pos < out.len() && !date_before_exec(&out[pos].date_published, &x.date_published)
                invariant
                    pos <= out@.len(),
                    forall|k: int| 0 <= k < pos ==> !date_before(#[trigger] out@[k].date_published, x.date_published),
                decreases out@.len() - pos,
            {
                pos = pos + 1;
            }
            let ghost before = out@;
            let ghost xv = x;
            out.insert(pos, x);
            proof {
                assert(out@ == before.insert(pos as int, xv));
                vstd::seq_lib::to_multiset_insert(before, pos as int, xv);
                assert forall|a: int, b: int| 0 <= a < b < out@.len() implies !date_before(
                    #[trigger] out@[a].date_published,
                    #[trigger] out@[b].date_published,
                ) by {
                    if b < pos {
                    } else if a < pos && b == pos {
                    } else if a < pos && b > pos {
                        assert(out@[b] == before[b - 1]);
                    } else if a == pos && b > pos {
                        assert(out@[b] == before[b - 1]);
                        let xd = xv.date_published;
                        let pd = before[pos as int].date_published;
                        assert(date_before(pd, xd));
                        let bd = before[b - 1].date_published;
                        if date_before(xd, bd) {
                            lemma_date_trans(pd, xd, bd);
                            if b - 1 > pos {
                            } else {
                                lemma_date_asym(pd, pd);
                            }
                        }
                    } else {
                        assert(out@[a] == before[a - 1]);
                        assert(out@[b] == before[b - 1]);
                    }
                }
                let old_idx = idx;
                let nfit = fitting(all.take(done + 1), *target);
                assert(nfit == fit.push(xv));
                idx = old_idx.insert(pos as int, fit.len() as int);
                assert forall|k: int| 0 <= k < out@.len() implies 0 <= #[trigger] idx[k] < nfit.len() && out@[k] == nfit[idx[k]] by {
                    if k < pos {
                        assert(idx[k] == old_idx[k]);
                        assert(out@[k] == before[k]);
                    } else if k > pos {
                        assert(idx[k] == old_idx[k - 1]);
                        assert(out@[k] == before[k - 1]);
                    }
                }
                assert forall|a: int, b: int| 0 <= a < b < out@.len() implies #[trigger] idx[a] != #[trigger] idx[b]
                    && (opt_view(out@[a].date_published) == opt_view(out@[b].date_published) ==> idx[a] < idx[b]) by {
                    if b < pos {
                        assert(idx[a] == old_idx[a] && idx[b] == old_idx[b]);
                        assert(out@[a] == before[a] && out@[b] == before[b]);
                        assert(old_idx[a] != old_idx[b]);
                    } else if a < pos && b == pos {
                        assert(idx[a] == old_idx[a]);
                        assert(old_idx[a] < fit.len());
                    } else if a < pos && b > pos {
                        assert(idx[a] == old_idx[a]);
                        assert(idx[b] == old_idx[b - 1]);
                        assert(out@[a] == before[a] && out@[b] == before[b - 1]);
                        assert(old_idx[a] != old_idx[b - 1]);
                    } else if a == pos && b > pos {
                        assert(idx[b] == old_idx[b - 1]);
                        assert(old_idx[b - 1] < fit.len());
                        assert(out@[b] == before[b - 1]);
                        let xd = xv.date_published;
                        let pd = before[pos as int].date_published;
                        let bd = before[b - 1].date_published;
                        assert(date_before(pd, xd));
                        if opt_view(xd) == opt_view(bd) {
                            assert(date_before(pd, bd));
                            if b - 1 > pos {
                                assert(!date_before(pd, bd));
                            } else {
                                lemma_date_asym(pd, pd);
                            }
                        }
                    } else {
                        assert(idx[a] == old_idx[a - 1]);
                        assert(idx[b] == old_idx[b - 1]);
                        assert(out@[a] == before[a - 1]);
                        assert(out@[b] == before[b - 1]);
                        assert(old_idx[a - 1] != old_idx[b - 1]);
                    }
                }
                assert(stable_by_date(nfit, out@, idx));
            }
        } else {
            proof {
                assert(fitting(all.take(done + 1), *target) == fit);
            }
        }
        proof {
            assert(rest@ =~= all.subrange(done + 1, n as int));
        }
        done = done + 1;
    }
    assert(all.take(n as int) =~= all);
    assert(stable_by_date(fitting(versions@, *target), out@, idx));
    out
}

// ---------------------------------------------------------------------------
// Installing another version
// ---------------------------------------------------------------------------

/// A request to replace a mod's jar by another version.
pub struct InstallProviderVersionRequest {
    pub key: String,
    pub source: String,
    pub project_id: String,
    pub filename: String,
    pub version_id: String,
    pub file_id: Option<String>,
    pub download_url: Option<String>,
    pub download_filename: Option<String>,
    pub version_number: Option<String>,
}

/// Where the new jar is downloaded from.
pub enum VersionDownload {
    Direct(String),
    /// Ask CurseForge for the address of this project's file.
    AskCurseforge(String, String),
}

pub open spec fn version_download_is(req: InstallProviderVersionRequest, source: Seq<char>, r: Result<VersionDownload, String>) -> bool {
    if clean_opt(req.download_url) is Some {
        r matches Ok(VersionDownload::Direct(u)) && u@ == clean_opt(req.download_url).unwrap()
    } else if source != "curseforge"@ {
        r matches Err(e) && e@ == "У выбранной версии нет ссылки на скачивание."@
    } else {
        let file = if clean_opt(req.file_id) is Some {
            clean_opt(req.file_id)
        } else {
            clean(req.version_id@)
        };
        match file {
            Some(f) => r matches Ok(VersionDownload::AskCurseforge(p, x)) && p@ == trim(req.project_id@) && x@ == f,
            None => r matches Err(e) && e@ == "У версии CurseForge нет file id."@,
        }
    }
}

pub fn resolve_download_url(req: &InstallProviderVersionRequest, source: &str) -> (r: Result<VersionDownload, String>)
    ensures
        version_download_is(*req, source@, r),
{
    if let Some(u) = clean_option(&req.download_url) {
        return Ok(VersionDownload::Direct(u));
    }
    let s = chars_of(source);
    if !eq_str(&s, "curseforge") {
        return Err("У выбранной версии нет ссылки на скачивание.".to_string());
    }
    let file = match clean_option(&req.file_id) {
        Some(f) => Some(f),
        None => clean_string(req.version_id.as_str()),
    };
    match file {
        Some(f) => Ok(VersionDownload::AskCurseforge(trim_string(req.project_id.as_str()), f)),
        None => Err("У версии CurseForge нет file id.".to_string()),
    }
}

/// What the interface is told about the installed version.
pub struct InstallProviderVersionResult {
    pub key: String,
    pub filename: String,
    pub base: String,
    pub modified_at: String,
    pub installed_version: Option<String>,
    pub modrinth_version_id: Option<String>,
    pub curseforge_file_id: Option<String>,
}

/// The current jar's name, which must be given.
pub fn current_filename(req: &InstallProviderVersionRequest) -> (r: Result<String, String>)
    ensures
        match clean(req.filename@) {
            Some(f) => r matches Ok(x) && x@ == f,
            None => r matches Err(e) && e@ == "Не задан текущий файл мода."@,
        },
{
    match clean_string(req.filename.as_str()) {
        Some(f) => Ok(f),
        None => Err("Не задан текущий файл мода.".to_string()),
    }
}

/// The new jar's name: the one the provider gives, else the current one.
pub fn next_filename(req: &InstallProviderVersionRequest, old_filename: &String) -> (r: String)
    ensures
        r@ == match clean_opt(req.download_filename) {
            Some(f) => f,
            None => old_filename@,
        },
{
    match clean_option(&req.download_filename) {
        Some(f) => f,
        None => old_filename.clone(),
    }
}

/// The version id (Modrinth) or file id (CurseForge) the mod is now on.
pub open spec fn installed_ids(req: InstallProviderVersionRequest, source: Seq<char>) -> (Option<Seq<char>>, Option<Seq<char>>) {
    if source == "modrinth"@ {
        (Some(trim(req.version_id@)), None)
    } else if source == "curseforge"@ {
        (None, Some(match clean_opt(req.file_id) {
            Some(f) => f,
            None => trim(req.version_id@),
        }))
    } else {
        (None, None)
    }
}

/// The result of installing a version at `modified_at`.
pub fn install_result(req: &InstallProviderVersionRequest, source: &str, next: &String, modified_at: String) -> (r: InstallProviderVersionResult)
    ensures
        r.key@ == req.key@,
        r.filename@ == next@,
        r.base@ == next@,
        r.modified_at == modified_at,
        opt_view(r.installed_version) == if clean_opt(req.version_number) is Some {
            clean_opt(req.version_number)
        } else {
            installed_version(next@)
        },
        (opt_view(r.modrinth_version_id), opt_view(r.curseforge_file_id)) == installed_ids(*req, source@),
{
    let installed = match clean_option(&req.version_number) {
        Some(v) => Some(v),
        None => installed_version_from_filename(next.as_str()),
    };
    let s = chars_of(source);
    let (mr, cf) = if eq_str(&s, "modrinth") {
        (Some(trim_string(req.version_id.as_str())), None)
    } else if eq_str(&s, "curseforge") {
        let f = match clean_option(&req.file_id) {
            Some(f) => f,
            None => trim_string(req.version_id.as_str()),
        };
        (None, Some(f))
    } else {
        (None, None)
    };
    InstallProviderVersionResult {
        key: req.key.clone(),
        filename: next.clone(),
        base: next.clone(),
        modified_at,
        installed_version: installed,
        modrinth_version_id: mr,
        curseforge_file_id: cf,
    }
}

/// `after` is `prev` on the installed version at `now`, with the old and the
/// new jar names among its aliases.
pub open spec fn version_recorded(prev: ModTags, after: ModTags, req: InstallProviderVersionRequest, source: Seq<char>, old_name: Seq<char>, new_name: Seq<char>, now: Seq<char>) -> bool {
    let ids = installed_ids(req, source);
    &&& after.source@ == source
    &&& after.updated_at@ == now
    &&& string_views(after.aliases@) == with_alias_added(with_alias_added(string_views(prev.aliases@), old_name), new_name)
    &&& if source == "modrinth"@ {
        &&& after.modrinth_id@ == trim(req.project_id@)
        &&& after.modrinth_version_id@ == ids.0.unwrap()
        &&& after == ModTags {
            source: after.source,
            updated_at: after.updated_at,
            aliases: after.aliases,
            modrinth_id: after.modrinth_id,
            modrinth_version_id: after.modrinth_version_id,
            ..prev
        }
    } else if source == "curseforge"@ {
        &&& after.curseforge_id@ == trim(req.project_id@)
        &&& after.curseforge_file_id@ == ids.1.unwrap()
        &&& after == ModTags {
            source: after.source,
            updated_at: after.updated_at,
            aliases: after.aliases,
            curseforge_id: after.curseforge_id,
            curseforge_file_id: after.curseforge_file_id,
            ..prev
        }
    } else {
        after == ModTags { source: after.source, updated_at: after.updated_at, aliases: after.aliases, ..prev }
    }
}

fn add_alias(aliases: &mut Vec<String>, filename: &str)
    ensures
        string_views(final(aliases)@) == with_alias_added(string_views(old(aliases)@), filename@),
{
    let f = chars_of(filename);
    let mut i: usize = 0;
    while i < aliases.len()
        invariant
            i <= aliases@.len(),
            aliases@ == old(aliases)@,
            f@ == filename@,
            forall|j: int| 0 <= j < i ==> string_views(aliases@)[j] != filename@,
        decreases aliases@.len() - i,
    {
        if eq_str(&f, aliases[i].as_str()) {
            assert(string_views(aliases@)[i as int] == filename@);
            return;
        }
        i = i + 1;
    }
    let ghost before = aliases@;
    aliases.push(filename.to_string());
    assert(string_views(aliases@) =~= string_views(before).push(filename@));
}

/// Records the installed version in the tag of the mod.
pub fn update_installed_tags(
    tags: &mut TagFile,
    req: &InstallProviderVersionRequest,
    source: &str,
    old_name: &str,
    new_name: &str,
    now: &str,
)
    requires
        keys_unique(old(tags).mods@),
    ensures
        final(tags).version == old(tags).version,
        final(tags).updated_at@ == now@,
        has_key(final(tags).mods@, req.key@),
        stored_under(old(tags).mods@, final(tags).mods@, req.key@, tag_for(final(tags).mods@, req.key@)),
        exists|prev: ModTags|
            #[trigger] previous_is(old(tags).mods@, req.key@, prev) && version_recorded(
                prev,
                tag_for(final(tags).mods@, req.key@),
                *req,
                source@,
                old_name@,
                new_name@,
                now@,
            ),
{
    let ghost before = tags.mods@;
    let (k, mut t, slot) = crate::tag_updates::take_tag(tags, req.key.as_str());
    let ghost prev = t;
    t.source = source.to_string();
    let s = chars_of(source);
    if eq_str(&s, "modrinth") {
        t.modrinth_id = trim_string(req.project_id.as_str());
        t.modrinth_version_id = trim_string(req.version_id.as_str());
    } else if eq_str(&s, "curseforge") {
        t.curseforge_id = trim_string(req.project_id.as_str());
        t.curseforge_file_id = match clean_option(&req.file_id) {
            Some(f) => f,
            None => trim_string(req.version_id.as_str()),
        };
    }
    add_alias(&mut t.aliases, old_name);
    add_alias(&mut t.aliases, new_name);
    t.updated_at = now.to_string();
    let ghost a = t;
    crate::tag_updates::put_tag(tags, slot, k, t);
    proof {
        if let Some(i) = slot {
            assert(tags.mods@ == before.remove(i as int).insert(i as int, (k, a)));
        }
        crate::tag_updates::lemma_take_put(before, tags.mods@, req.key@, k, slot, a);
        assert(previous_is(before, req.key@, prev));
    }
    tags.updated_at = now.to_string();
}

/// The name the replaced jar is kept under until the new one is in place.
pub fn backup_name(filename: Option<&str>, timestamp: u64) -> (r: String)
    ensures
        r@ == match filename {
            Some(f) => f@,
            None => "mod.jar"@,
        } + ".mod-manager-backup-"@ + crate::text::decimal(timestamp as nat),
{
    let mut out = match filename {
        Some(f) => f.to_string(),
        None => "mod.jar".to_string(),
    };
    out.append(".mod-manager-backup-");
    out.append(crate::text::decimal_string(timestamp).as_str());
    out
}

/// The temporary name a download is written under.
pub fn download_temp_name(timestamp: u64) -> (r: String)
    ensures
        r@ == ".mod-manager-download-"@ + crate::text::decimal(timestamp as nat) + ".jar"@,
{
    let mut out = ".mod-manager-download-".to_string();
    out.append(crate::text::decimal_string(timestamp).as_str());
    out.append(".jar");
    out
}

} // verus!
