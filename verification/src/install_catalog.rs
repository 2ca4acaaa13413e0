//! Installing a project from the Modrinth or CurseForge catalogue: which
//! version, which dependencies are already there, and what is recorded.
use vstd::prelude::*;
use crate::text::{chars_of, eq_str, lemma_seq_lt_asymmetric, lemma_seq_lt_total, lemma_seq_lt_transitive, lower, opt_view, seq_lt, str_lt, string_of, string_views, to_lower, trim, trimmed};
use crate::mods::{keys_unique, has_key, stable_key, stable_key_of, tag_for, ModEntry};
use crate::mod_names::{alnum_key, normalized_match_key};
use crate::updates::ProviderVersion;
use crate::instance_meta::{filter_of, fits_target, target_has_filters, version_matches_target, InstanceTarget};
use crate::prefetch::{i64_string, i64_text, CurseforgeDependency, ModrinthDependency};
use crate::source_switch::{clean, clean_opt, clean_string};
use crate::tags::{ModTags, TagFile};
use crate::tag_updates::{previous_is, stored_under, with_alias_added};

verus! {

/// Dependency chains deeper than this are refused.
pub const MAX_DEPENDENCY_DEPTH: usize = 10;

/// Cached project details are reused for a week.
pub const PROJECT_DETAILS_CACHE_TTL_MS: u64 = 604800000;

/// Cached details checked at `checked_at_ms` are still fresh at `now_ms`.
pub fn project_details_cache_fresh(checked_at_ms: Option<u64>, now_ms: u64) -> (r: bool)
    ensures
        r == match checked_at_ms {
            Some(c) => (if now_ms >= c {
                now_ms - c
            } else {
                0
            }) <= PROJECT_DETAILS_CACHE_TTL_MS,
            None => false,
        },
{
    match checked_at_ms {
        Some(c) => now_ms.saturating_sub(c) <= PROJECT_DETAILS_CACHE_TTL_MS,
        None => false,
    }
}

/// The catalogue knows Modrinth and CurseForge.
pub fn normalize_catalog_source(source: &str) -> (r: Result<String, String>)
    ensures
        ({
            let s = lower(trim(source@));
            &&& (s == "modrinth"@ || s == "curseforge"@) ==> (r matches Ok(v) && v@ == s)
            &&& !(s == "modrinth"@ || s == "curseforge"@) ==> (r matches Err(e) && e@
                == "Каталог доступен только для Modrinth или CurseForge."@)
        }),
{
    let t = trimmed(source);
    let l = to_lower(&t);
    if eq_str(&l, "modrinth") || eq_str(&l, "curseforge") {
        Ok(string_of(&l))
    } else {
        Err("Каталог доступен только для Modrinth или CurseForge.".to_string())
    }
}

// ---------------------------------------------------------------------------
// Required dependencies
// ---------------------------------------------------------------------------

/// The projects a Modrinth version requires.
pub open spec fn modrinth_required_ids(deps: Seq<ModrinthDependency>) -> Seq<Seq<char>>
    decreases deps.len(),
{
    if deps.len() == 0 {
        Seq::empty()
    } else {
        let rest = modrinth_required_ids(deps.drop_last());
        let d = deps.last();
        if d.dependency_type matches Some(t) && t@ == "required"@ && d.project_id is Some {
            rest.push(d.project_id.unwrap()@)
        } else {
            rest
        }
    }
}

pub fn modrinth_required_project_ids(deps: &Vec<ModrinthDependency>) -> (r: Vec<String>)
    ensures
        string_views(r@) == modrinth_required_ids(deps@),
{
    let mut r: Vec<String> = Vec::new();
    let mut i: usize = 0;
    while i < deps.len()
        invariant
            i <= deps@.len(),
            string_views(r@) == modrinth_required_ids(deps@.take(i as int)),
        decreases deps@.len() - i,
    {
        assert(deps@.take(i + 1).drop_last() =~= deps@.take(i as int));
        assert(deps@.take(i + 1).last() == deps@[i as int]);
        let d = &deps[i];
        let required = match &d.dependency_type {
            Some(t) => {
                let tv = chars_of(t.as_str());
                eq_str(&tv, "required")
            },
            None => false,
        };
        if required {
            if let Some(pid) = &d.project_id {
                let ghost before = r@;
                r.push(pid.clone());
                assert(string_views(r@) =~= string_views(before).push(pid@));
            }
        }
        i = i + 1;
    }
    assert(deps@.take(deps@.len() as int) =~= deps@);
    r
}

/// The mods a CurseForge file requires (relation type 3), as decimal ids.
pub open spec fn curseforge_required_ids(deps: Seq<CurseforgeDependency>) -> Seq<Seq<char>>
    decreases deps.len(),
{
    if deps.len() == 0 {
        Seq::empty()
    } else {
        let rest = curseforge_required_ids(deps.drop_last());
        let d = deps.last();
        if d.relation_type == Some(3i64) && d.mod_id is Some {
            rest.push(i64_text(d.mod_id.unwrap()))
        } else {
            rest
        }
    }
}

pub fn curseforge_required_mod_ids(deps: &Vec<CurseforgeDependency>) -> (r: Vec<String>)
    ensures
        string_views(r@) == curseforge_required_ids(deps@),
{
    let mut r: Vec<String> = Vec::new();
    let mut i: usize = 0;
    while i < deps.len()
        invariant
            i <= deps@.len(),
            string_views(r@) == curseforge_required_ids(deps@.take(i as int)),
        decreases deps@.len() - i,
    {
        assert(deps@.take(i + 1).drop_last() =~= deps@.take(i as int));
        assert(deps@.take(i + 1).last() == deps@[i as int]);
        let d = &deps[i];
        if d.relation_type == Some(3i64) {
            if let Some(id) = d.mod_id {
                let s = i64_string(id);
                let ghost before = r@;
                let ghost sv = s@;
                r.push(s);
                assert(string_views(r@) =~= string_views(before).push(sv));
            }
        }
        i = i + 1;
    }
    assert(deps@.take(deps@.len() as int) =~= deps@);
    r
}

// ---------------------------------------------------------------------------
// Installed mods
// ---------------------------------------------------------------------------

/// The mod is linked to the project on that provider.
pub open spec fn linked_to(item: ModEntry, source: Seq<char>, project_id: Seq<char>) -> bool {
    (source == "modrinth"@ && opt_view(item.modrinth_id) == Some(project_id)) || (source == "curseforge"@
        && opt_view(item.curseforge_id) == Some(project_id))
}

fn opt_is(o: &Option<String>, s: &str) -> (r: bool)
    ensures
        r == (opt_view(*o) == Some(s@)),
{
    match o {
        Some(v) => {
            let vv = chars_of(v.as_str());
            eq_str(&vv, s)
        },
        None => false,
    }
}

/// The key of the first mod linked to the project on that provider.
pub fn installed_key_for_project(mods: &Vec<ModEntry>, source: &str, project_id: &str) -> (r: Option<String>)
    ensures
        match r {
            Some(k) => exists|i: int|
                0 <= i < mods@.len() && linked_to(#[trigger] mods@[i], source@, project_id@) && k@ == mods@[i].key@
                    && forall|j: int| 0 <= j < i ==> !linked_to(#[trigger] mods@[j], source@, project_id@),
            None => forall|j: int| 0 <= j < mods@.len() ==> !linked_to(#[trigger] mods@[j], source@, project_id@),
        },
{
    let sv = chars_of(source);
    let is_mr = eq_str(&sv, "modrinth");
    let is_cf = eq_str(&sv, "curseforge");
    let mut i: usize = 0;
    while i < mods.len()
        invariant
            i <= mods@.len(),
            is_mr == (source@ == "modrinth"@),
            is_cf == (source@ == "curseforge"@),
            forall|j: int| 0 <= j < i ==> !linked_to(#[trigger] mods@[j], source@, project_id@),
        decreases mods@.len() - i,
    {
        let item = &mods[i];
        if (is_mr && opt_is(&item.modrinth_id, project_id)) || (is_cf && opt_is(&item.curseforge_id, project_id)) {
            assert(linked_to(mods@[i as int], source@, project_id@));
            return Some(item.key.clone());
        }
        i = i + 1;
    }
    None
}

/// The mod has the id on either provider.
pub open spec fn has_any_id(item: ModEntry, project_id: Seq<char>) -> bool {
    opt_view(item.modrinth_id) == Some(project_id) || opt_view(item.curseforge_id) == Some(project_id)
}

/// The mod's jar has that name.
pub open spec fn has_filename(item: ModEntry, filename: Seq<char>) -> bool {
    item.filename@ == filename
}

/// The mod's name reduces to the same letters and digits.
pub open spec fn same_title(item: ModEntry, title_key: Seq<char>) -> bool {
    alnum_key(item.display_name@) == title_key
}

/// The first mod with property `p` has key `key`, for the four ways a
/// dependency is found among the installed mods.
pub open spec fn first_linked(mods: Seq<ModEntry>, source: Seq<char>, project_id: Seq<char>, key: Seq<char>) -> bool {
    exists|i: int|
        0 <= i < mods.len() && linked_to(#[trigger] mods[i], source, project_id) && key == mods[i].key@ && forall|j: int|
            0 <= j < i ==> !linked_to(#[trigger] mods[j], source, project_id)
}

pub open spec fn first_with_id(mods: Seq<ModEntry>, project_id: Seq<char>, key: Seq<char>) -> bool {
    exists|i: int|
        0 <= i < mods.len() && has_any_id(#[trigger] mods[i], project_id) && key == mods[i].key@ && forall|j: int|
            0 <= j < i ==> !has_any_id(#[trigger] mods[j], project_id)
}

pub open spec fn first_with_file(mods: Seq<ModEntry>, file: Seq<char>, key: Seq<char>) -> bool {
    exists|i: int|
        0 <= i < mods.len() && has_filename(#[trigger] mods[i], file) && key == mods[i].key@ && forall|j: int|
            0 <= j < i ==> !has_filename(#[trigger] mods[j], file)
}

pub open spec fn first_with_title(mods: Seq<ModEntry>, title_key: Seq<char>, key: Seq<char>) -> bool {
    exists|i: int|
        0 <= i < mods.len() && same_title(#[trigger] mods[i], title_key) && key == mods[i].key@ && forall|j: int|
            0 <= j < i ==> !same_title(#[trigger] mods[j], title_key)
}

pub open spec fn none_linked(mods: Seq<ModEntry>, source: Seq<char>, project_id: Seq<char>) -> bool {
    forall|j: int| 0 <= j < mods.len() ==> !linked_to(#[trigger] mods[j], source, project_id)
}

pub open spec fn none_with_id(mods: Seq<ModEntry>, project_id: Seq<char>) -> bool {
    forall|j: int| 0 <= j < mods.len() ==> !has_any_id(#[trigger] mods[j], project_id)
}

pub open spec fn none_with_file(mods: Seq<ModEntry>, file: Seq<char>) -> bool {
    forall|j: int| 0 <= j < mods.len() ==> !has_filename(#[trigger] mods[j], file)
}

pub open spec fn none_with_title(mods: Seq<ModEntry>, title_key: Seq<char>) -> bool {
    forall|j: int| 0 <= j < mods.len() ==> !same_title(#[trigger] mods[j], title_key)
}

/// A dependency counts as installed when a mod is linked to it on the
/// provider, else when a mod has its id on either provider, else when a jar
/// has the dependency's (trimmed) file name, else when a mod's name matches
/// its title by letters and digits.
pub open spec fn dependency_match(
    mods: Seq<ModEntry>,
    source: Seq<char>,
    project_id: Seq<char>,
    title: Seq<char>,
    file: Option<Seq<char>>,
    k: Option<Seq<char>>,
) -> bool {
    let tk = alnum_key(title);
    match k {
        Some(key) => {
            ||| first_linked(mods, source, project_id, key)
            ||| none_linked(mods, source, project_id) && first_with_id(mods, project_id, key)
            ||| none_linked(mods, source, project_id) && none_with_id(mods, project_id) && (file matches Some(f)
                && first_with_file(mods, f, key))
            ||| none_linked(mods, source, project_id) && none_with_id(mods, project_id) && (file matches Some(f)
                ==> none_with_file(mods, f)) && tk.len() > 0 && first_with_title(mods, tk, key)
        },
        None => {
            &&& none_linked(mods, source, project_id)
            &&& none_with_id(mods, project_id)
            &&& (file matches Some(f) ==> none_with_file(mods, f))
            &&& (tk.len() > 0 ==> none_with_title(mods, tk))
        },
    }
}

pub fn installed_key_for_dependency(
    mods: &Vec<ModEntry>,
    source: &str,
    project_id: &str,
    title: &str,
    filename: Option<&str>,
) -> (r: Option<String>)
    ensures
        dependency_match(
            mods@,
            source@,
            project_id@,
            title@,
            match filename {
                Some(f) => clean(f@),
                None => None,
            },
            opt_view(r),
        ),
{
    if let Some(k) = installed_key_for_project(mods, source, project_id) {
        return Some(k);
    }
    let mut i: usize = 0;
    while i < mods.len()
        invariant
            i <= mods@.len(),
            forall|j: int| 0 <= j < mods@.len() ==> !linked_to(#[trigger] mods@[j], source@, project_id@),
            forall|j: int| 0 <= j < i ==> !has_any_id(#[trigger] mods@[j], project_id@),
        decreases mods@.len() - i,
    {
        if opt_is(&mods[i].modrinth_id, project_id) || opt_is(&mods[i].curseforge_id, project_id) {
            assert(has_any_id(mods@[i as int], project_id@));
            return Some(mods[i].key.clone());
        }
        i = i + 1;
    }
    let ghost fspec = match filename {
        Some(x) => clean(x@),
        None => None,
    };
    let file = match filename {
        Some(f) => clean_string(f),
        None => None,
    };
    assert(opt_view(file) == fspec);
    if let Some(f) = &file {
        let mut i: usize = 0;
        while i < mods.len()
            invariant
                i <= mods@.len(),
                fspec == Some(f@),
                fspec == match filename {
                    Some(x) => clean(x@),
                    None => None,
                },
                forall|j: int| 0 <= j < mods@.len() ==> !linked_to(#[trigger] mods@[j], source@, project_id@),
                forall|j: int| 0 <= j < mods@.len() ==> !has_any_id(#[trigger] mods@[j], project_id@),
                forall|j: int| 0 <= j < i ==> !has_filename(#[trigger] mods@[j], f@),
            decreases mods@.len() - i,
        {
            if mods[i].filename == *f {
                assert(has_filename(mods@[i as int], f@));
                let k = mods[i].key.clone();
                return Some(k);
            }
            i = i + 1;
        }
    }
    let tk = normalized_match_key(title);
    if !tk.as_str().is_empty() {
        let mut i: usize = 0;
        while i < mods.len()
            invariant
                i <= mods@.len(),
                tk@ == alnum_key(title@),
                tk@.len() > 0,
                fspec == match filename {
                    Some(x) => clean(x@),
                    None => None,
                },
                forall|j: int| 0 <= j < mods@.len() ==> !linked_to(#[trigger] mods@[j], source@, project_id@),
                forall|j: int| 0 <= j < mods@.len() ==> !has_any_id(#[trigger] mods@[j], project_id@),
                match fspec {
                    Some(fv) => forall|j: int| 0 <= j < mods@.len() ==> !has_filename(#[trigger] mods@[j], fv),
                    None => true,
                },
                forall|j: int| 0 <= j < i ==> !same_title(#[trigger] mods@[j], tk@),
            decreases mods@.len() - i,
        {
            let k = normalized_match_key(mods[i].display_name.as_str());
            if k == tk {
                assert(same_title(mods@[i as int], tk@));
                return Some(mods[i].key.clone());
            }
            i = i + 1;
        }
    }
    None
}

// ---------------------------------------------------------------------------
// Choosing a version
// ---------------------------------------------------------------------------

/// Publication dates in order: a missing date comes first.
pub open spec fn date_before(a: Option<String>, b: Option<String>) -> bool {
    match (a, b) {
        (None, Some(_)) => true,
        (Some(x), Some(y)) => seq_lt(x@, y@),
        _ => false,
    }
}

fn date_before_exec(a: &Option<String>, b: &Option<String>) -> (r: bool)
    ensures
        r == date_before(*a, *b),
{
    match (a, b) {
        (None, Some(_)) => true,
        (Some(x), Some(y)) => str_lt(x.as_str(), y.as_str()),
        _ => false,
    }
}

/// A version can be installed into the instance: it fits the instance's game
/// version and loader, where the instance has them.
pub open spec fn eligible(v: ProviderVersion, target: InstanceTarget) -> bool {
    let filtering = filter_of(opt_view(target.minecraft_version)) is Some || filter_of(opt_view(target.loader)) is Some;
    !filtering || fits_target(string_views(v.game_versions@), string_views(v.loaders@), target)
}

/// Position `i` holds the newest eligible version, the first of those
/// published last.
pub open spec fn newest_eligible(vs: Seq<ProviderVersion>, target: InstanceTarget, i: int) -> bool {
    &&& 0 <= i < vs.len()
    &&& eligible(vs[i], target)
    &&& forall|j: int| 0 <= j < vs.len() && eligible(#[trigger] vs[j], target) ==> !date_before(vs[i].date_published, vs[j].date_published)
    &&& forall|j: int| 0 <= j < i && eligible(#[trigger] vs[j], target) ==> date_before(vs[j].date_published, vs[i].date_published)
}

proof fn lemma_date_total(a: Option<String>, b: Option<String>)
    ensures
        date_before(a, b) || date_before(b, a) || (a is None && b is None) || (a is Some && b is Some && a.unwrap()@ == b.unwrap()@),
{
    if let (Some(x), Some(y)) = (a, b) {
        lemma_seq_lt_total(x@, y@);
    }
}

proof fn lemma_date_trans(a: Option<String>, b: Option<String>, c: Option<String>)
    requires
        date_before(a, b),
        date_before(b, c),
    ensures
        date_before(a, c),
{
    if let (Some(x), Some(y), Some(z)) = (a, b, c) {
        lemma_seq_lt_transitive(x@, y@, z@);
    }
}

proof fn lemma_date_asym(a: Option<String>, b: Option<String>)
    ensures
        !(date_before(a, b) && date_before(b, a)),
{
    if let (Some(x), Some(y)) = (a, b) {
        lemma_seq_lt_asymmetric(x@, y@);
    }
}

proof fn lemma_date_same(a: Option<String>, b: Option<String>, c: Option<String>)
    requires
        !date_before(a, b),
        !date_before(b, a),
    ensures
        date_before(a, c) == date_before(b, c),
        date_before(c, a) == date_before(c, b),
{
    lemma_date_total(a, b);
}

/// The version to install: the newest one that fits the instance.
pub fn pick_best_version(versions: Vec<ProviderVersion>, target: &InstanceTarget) -> (r: Result<ProviderVersion, String>)
    ensures
        match r {
            Ok(v) => exists|i: int| newest_eligible(versions@, *target, i) && v == versions@[i],
            Err(e) => e@ == "Нет версии под текущую сборку."@ && forall|j: int|
                0 <= j < versions@.len() ==> !eligible(#[trigger] versions@[j], *target),
        },
{
    let filtering = target_has_filters(target);
    let ghost vs = versions@;
    let mut best: Option<usize> = None;
    let mut i: usize = 0;
    while i < versions.len()
        invariant
            i <= vs.len(),
            vs == versions@,
            filtering == (filter_of(opt_view(target.minecraft_version)) is Some || filter_of(opt_view(target.loader)) is Some),
            match best {
                Some(b) => {
                    &&& b < i
                    &&& eligible(vs[b as int], *target)
                    &&& forall|j: int| 0 <= j < i && eligible(#[trigger] vs[j], *target) ==> !date_before(vs[b as int].date_published, vs[j].date_published)
                    &&& forall|j: int| 0 <= j < b && eligible(#[trigger] vs[j], *target) ==> date_before(vs[j].date_published, vs[b as int].date_published)
                },
                None => forall|j: int| 0 <= j < i ==> !eligible(#[trigger] vs[j], *target),
            },
        decreases vs.len() - i,
    {
        let v = &versions[i];
        let ok = !filtering || version_matches_target(v.game_versions.as_slice(), v.loaders.as_slice(), target);
        if ok {
            match best {
                None => {
                    proof {
                        lemma_date_asym(vs[i as int].date_published, vs[i as int].date_published);
                    }
                    best = Some(i);
                },
                Some(b) => {
                    if date_before_exec(&versions[b].date_published, &v.date_published) {
                        proof {
                            let nb = vs[i as int].date_published;
                            assert forall|j: int| 0 <= j < i + 1 && eligible(#[trigger] vs[j], *target) implies !date_before(
                                nb,
                                vs[j].date_published,
                            ) by {
                                if j < i {
                                    let d = vs[j].date_published;
                                    let ob = vs[b as int].date_published;
                                    if date_before(nb, d) {
                                        lemma_date_trans(ob, nb, d);
                                    }
                                } else {
                                    lemma_date_asym(nb, nb);
                                }
                            }
                            assert forall|j: int| 0 <= j < i && eligible(#[trigger] vs[j], *target) implies date_before(
                                vs[j].date_published,
                                nb,
                            ) by {
                                let d = vs[j].date_published;
                                let ob = vs[b as int].date_published;
                                lemma_date_total(d, ob);
                                if date_before(d, ob) {
                                    lemma_date_trans(d, ob, nb);
                                } else {
                                    lemma_date_same(d, ob, nb);
                                }
                            }
                        }
                        best = Some(i);
                    }
                },
            }
        }
        i = i + 1;
    }
    match best {
        Some(b) => {
            let mut versions = versions;
            let v = versions.remove(b);
            Ok(v)
        },
        None => Err("Нет версии под текущую сборку.".to_string()),
    }
}

// ---------------------------------------------------------------------------
// Walking the dependencies
// ---------------------------------------------------------------------------

/// Why a project cannot be resolved at this point of the walk, if it cannot:
/// the chain is too deep, or the project is already being resolved.
pub open spec fn walk_error(depth: usize, visiting: Seq<Seq<char>>, project_id: Seq<char>) -> Option<Seq<char>> {
    if depth > MAX_DEPENDENCY_DEPTH {
        Some("Слишком глубокая цепочка зависимостей."@)
    } else if visiting.contains(project_id) {
        Some(
            "Modrinth/CurseForge указали зависимость по кругу (мод A требует B, B требует A). Установи зависимости вручную."@,
        )
    } else {
        None
    }
}

fn contains_text(v: &Vec<String>, s: &str) -> (r: bool)
    ensures
        r == string_views(v@).contains(s@),
{
    let sv = chars_of(s);
    let mut i: usize = 0;
    while i < v.len()
        invariant
            i <= v@.len(),
            sv@ == s@,
            forall|j: int| 0 <= j < i ==> string_views(v@)[j] != s@,
        decreases v@.len() - i,
    {
        if eq_str(&sv, v[i].as_str()) {
            assert(string_views(v@)[i as int] == s@);
            return true;
        }
        i = i + 1;
    }
    false
}

/// Enters a project into the walk, or says why it cannot be.
pub fn enter_dependency(visiting: &mut Vec<String>, depth: usize, project_id: &str) -> (r: Result<(), String>)
    ensures
        match r {
            Ok(()) => walk_error(depth, string_views(old(visiting)@), project_id@) is None && string_views(
                final(visiting)@,
            ) == string_views(old(visiting)@).push(project_id@),
            Err(e) => walk_error(depth, string_views(old(visiting)@), project_id@) == Some(e@) && final(visiting)@
                == old(visiting)@,
        },
{
    if depth > MAX_DEPENDENCY_DEPTH {
        return Err("Слишком глубокая цепочка зависимостей.".to_string());
    }
    if contains_text(visiting, project_id) {
        return Err(
            "Modrinth/CurseForge указали зависимость по кругу (мод A требует B, B требует A). Установи зависимости вручную.".to_string(),
        );
    }
    let ghost before = visiting@;
    visiting.push(project_id.to_string());
    assert(string_views(visiting@) =~= string_views(before).push(project_id@));
    Ok(())
}

/// Notes a dependency as listed; says whether it was new.
pub fn note_listed(listed: &mut Vec<String>, project_id: &str) -> (r: bool)
    ensures
        r == !string_views(old(listed)@).contains(project_id@),
        string_views(final(listed)@) == if r {
            string_views(old(listed)@).push(project_id@)
        } else {
            string_views(old(listed)@)
        },
{
    if contains_text(listed, project_id) {
        return false;
    }
    let ghost before = listed@;
    listed.push(project_id.to_string());
    assert(string_views(listed@) =~= string_views(before).push(project_id@));
    true
}

// ---------------------------------------------------------------------------
// Downloading and recording
// ---------------------------------------------------------------------------

/// A project version resolved for installation.
pub struct ResolvedInstallItem {
    pub project_id: String,
    pub source: String,
    pub slug: Option<String>,
    pub version: ProviderVersion,
}

/// Where the jar of a version is downloaded from.
pub enum DownloadPlan {
    /// The version's own address.
    Direct(String),
    /// Ask CurseForge for the address of this file.
    AskCurseforge(String),
}

/// The version's own address where it has one; else, for CurseForge, the
/// address CurseForge gives for the file (by its file id, else its id).
pub open spec fn download_plan_is(item: ResolvedInstallItem, r: Result<DownloadPlan, String>) -> bool {
    if clean_opt(item.version.download_url) is Some {
        r matches Ok(DownloadPlan::Direct(u)) && u@ == clean_opt(item.version.download_url).unwrap()
    } else if item.source@ != "curseforge"@ {
        r matches Err(e) && e@ == "У выбранной версии нет ссылки на скачивание."@
    } else {
        let file = if clean_opt(item.version.file_id) is Some {
            clean_opt(item.version.file_id)
        } else {
            clean(item.version.id@)
        };
        match file {
            Some(f) => r matches Ok(DownloadPlan::AskCurseforge(x)) && x@ == f,
            None => r matches Err(e) && e@ == "У версии CurseForge нет file id."@,
        }
    }
}

pub fn catalog_download_plan(item: &ResolvedInstallItem) -> (r: Result<DownloadPlan, String>)
    ensures
        download_plan_is(*item, r),
{
    if let Some(url) = crate::source_switch::clean_option(&item.version.download_url) {
        return Ok(DownloadPlan::Direct(url));
    }
    let src = chars_of(item.source.as_str());
    if !eq_str(&src, "curseforge") {
        return Err("У выбранной версии нет ссылки на скачивание.".to_string());
    }
    let file = match crate::source_switch::clean_option(&item.version.file_id) {
        Some(f) => Some(f),
        None => clean_string(item.version.id.as_str()),
    };
    match file {
        Some(f) => Ok(DownloadPlan::AskCurseforge(f)),
        None => Err("У версии CurseForge нет file id.".to_string()),
    }
}

/// The address CurseForge answered with, trimmed, or why there is none.
pub fn curseforge_download_reply(data: Option<String>) -> (r: Result<String, String>)
    ensures
        match clean_opt(data) {
            Some(u) => r matches Ok(x) && x@ == u,
            None => r matches Err(e) && e@ == "У этой версии CurseForge нет доступной ссылки на скачивание."@,
        },
{
    match crate::source_switch::clean_option(&data) {
        Some(u) => Ok(u),
        None => Err("У этой версии CurseForge нет доступной ссылки на скачивание.".to_string()),
    }
}

/// The key a catalogue install is recorded under: by provider and project,
/// else by the jar.
pub open spec fn item_key(source: Seq<char>, project_id: Seq<char>, filename: Seq<char>) -> Seq<char> {
    if source == "modrinth"@ {
        "modrinth:"@ + project_id
    } else if source == "curseforge"@ {
        "curseforge:"@ + project_id
    } else {
        stable_key_of(filename, None)
    }
}

pub fn stable_key_for_item(item: &ResolvedInstallItem) -> (r: String)
    ensures
        r@ == item_key(item.source@, item.project_id@, item.version.filename@),
{
    let src = chars_of(item.source.as_str());
    if eq_str(&src, "modrinth") {
        let mut out = "modrinth:".to_string();
        out.append(item.project_id.as_str());
        proof {
            reveal_strlit("modrinth:");
        }
        out
    } else if eq_str(&src, "curseforge") {
        let mut out = "curseforge:".to_string();
        out.append(item.project_id.as_str());
        proof {
            reveal_strlit("curseforge:");
        }
        out
    } else {
        stable_key(item.version.filename.as_str(), None)
    }
}

/// `after` is `prev` recording a catalogue install at `now`: its provider,
/// project and version (or file and slug), with the jar among its aliases.
pub open spec fn catalog_recorded(prev: ModTags, after: ModTags, item: ResolvedInstallItem, now: Seq<char>) -> bool {
    let f = trim(item.version.filename@);
    &&& after.source@ == item.source@
    &&& after.updated_at@ == now
    &&& string_views(after.aliases@) == if f.len() > 0 {
        with_alias_added(string_views(prev.aliases@), f)
    } else {
        string_views(prev.aliases@)
    }
    &&& if item.source@ == "modrinth"@ {
        &&& after.modrinth_id@ == item.project_id@
        &&& after.modrinth_version_id@ == item.version.id@
        &&& after == ModTags {
            source: after.source,
            updated_at: after.updated_at,
            aliases: after.aliases,
            modrinth_id: after.modrinth_id,
            modrinth_version_id: after.modrinth_version_id,
            ..prev
        }
    } else if item.source@ == "curseforge"@ {
        &&& after.curseforge_id@ == item.project_id@
        &&& after.curseforge_file_id@ == match item.version.file_id {
            Some(fid) => fid@,
            None => item.version.id@,
        }
        &&& after.curseforge_slug@ == match clean_opt(item.slug) {
            Some(s) => s,
            None => prev.curseforge_slug@,
        }
        &&& after == ModTags {
            source: after.source,
            updated_at: after.updated_at,
            aliases: after.aliases,
            curseforge_id: after.curseforge_id,
            curseforge_file_id: after.curseforge_file_id,
            curseforge_slug: after.curseforge_slug,
            ..prev
        }
    } else {
        after == ModTags { source: after.source, updated_at: after.updated_at, aliases: after.aliases, ..prev }
    }
}

fn add_trimmed_alias(aliases: &mut Vec<String>, filename: &str)
    ensures
        string_views(final(aliases)@) == if trim(filename@).len() > 0 {
            with_alias_added(string_views(old(aliases)@), trim(filename@))
        } else {
            string_views(old(aliases)@)
        },
{
    let t = crate::text::trim_string(filename);
    if t.as_str().is_empty() {
        return;
    }
    let tv = chars_of(t.as_str());
    let mut i: usize = 0;
    while i < aliases.len()
        invariant
            i <= aliases@.len(),
            aliases@ == old(aliases)@,
            tv@ == trim(filename@),
            forall|j: int| 0 <= j < i ==> string_views(aliases@)[j] != trim(filename@),
        decreases aliases@.len() - i,
    {
        if eq_str(&tv, aliases[i].as_str()) {
            assert(string_views(aliases@)[i as int] == trim(filename@));
            return;
        }
        i = i + 1;
    }
    let ghost before = aliases@;
    let ghost ttv = t@;
    aliases.push(t);
    assert(string_views(aliases@) =~= string_views(before).push(ttv));
}

/// Records a catalogue install in the tag under `key`, stamping the entry and
/// the file with `now`.
pub fn write_catalog_tag(tags: &mut TagFile, key: &str, item: &ResolvedInstallItem, now: &str)
    requires
        keys_unique(old(tags).mods@),
    ensures
        final(tags).version == old(tags).version,
        final(tags).updated_at@ == now@,
        has_key(final(tags).mods@, key@),
        stored_under(old(tags).mods@, final(tags).mods@, key@, tag_for(final(tags).mods@, key@)),
        exists|prev: ModTags|
            #[trigger] previous_is(old(tags).mods@, key@, prev) && catalog_recorded(
                prev,
                tag_for(final(tags).mods@, key@),
                *item,
                now@,
            ),
{
    let ghost before = tags.mods@;
    let (k, mut t, slot) = crate::tag_updates::take_tag(tags, key);
    let ghost prev = t;
    t.source = item.source.clone();
    let src = chars_of(item.source.as_str());
    if eq_str(&src, "modrinth") {
        t.modrinth_id = item.project_id.clone();
        t.modrinth_version_id = item.version.id.clone();
    } else if eq_str(&src, "curseforge") {
        t.curseforge_id = item.project_id.clone();
        t.curseforge_file_id = match &item.version.file_id {
            Some(f) => f.clone(),
            None => item.version.id.clone(),
        };
        if let Some(slug) = crate::source_switch::clean_option(&item.slug) {
            t.curseforge_slug = slug;
        }
    }
    add_trimmed_alias(&mut t.aliases, item.version.filename.as_str());
    t.updated_at = now.to_string();
    let ghost a = t;
    crate::tag_updates::put_tag(tags, slot, k, t);
    proof {
        if let Some(i) = slot {
            assert(tags.mods@ == before.remove(i as int).insert(i as int, (k, a)));
        }
        crate::tag_updates::lemma_take_put(before, tags.mods@, key@, k, slot, a);
        assert(previous_is(before, key@, prev));
    }
    tags.updated_at = now.to_string();
}

/// The title, slug and icon of a Modrinth project: its title unless empty
/// (else a placeholder), its slug, its icon unless empty.
pub fn modrinth_project_meta(title: Option<String>, slug: Option<String>, icon_url: Option<String>) -> (r: (String, Option<String>, Option<String>))
    ensures
        r.0@ == match title {
            Some(t) => if t@.len() > 0 {
                t@
            } else {
                "Без названия"@
            },
            None => "Без названия"@,
        },
        r.1 == slug,
        opt_view(r.2) == match icon_url {
            Some(u) => if u@.len() > 0 {
                Some(u@)
            } else {
                None
            },
            None => None,
        },
{
    let t = match title {
        Some(t) => if t.as_str().is_empty() {
            "Без названия".to_string()
        } else {
            t
        },
        None => "Без названия".to_string(),
    };
    let icon = match icon_url {
        Some(u) => if u.as_str().is_empty() {
            None
        } else {
            Some(u)
        },
        None => None,
    };
    (t, slug, icon)
}

/// The title and slug of a CurseForge project (it gives no icon here).
pub fn curseforge_project_meta(title: Option<String>, slug: Option<String>) -> (r: (String, Option<String>, Option<String>))
    ensures
        r.0@ == match title {
            Some(t) => t@,
            None => "Без названия"@,
        },
        r.1 == slug,
        r.2 is None,
{
    let t = match title {
        Some(t) => t,
        None => "Без названия".to_string(),
    };
    (t, slug, None)
}

/// The key of a planned item whose jar is already in the instance: the mod
/// linked to its project, else the jar's own key.
pub fn present_jar_key(mods: &Vec<ModEntry>, item: &ResolvedInstallItem) -> (r: String)
    ensures
        first_linked(mods@, item.source@, item.project_id@, r@) || (none_linked(mods@, item.source@, item.project_id@)
            && r@ == stable_key_of(item.version.filename@, None)),
{
    match installed_key_for_project(mods, item.source.as_str(), item.project_id.as_str()) {
        Some(k) => k,
        None => stable_key(item.version.filename.as_str(), None),
    }
}

/// Adds a key to the installed keys unless it is there already.
pub fn push_installed_key(keys: &mut Vec<String>, key: String)
    ensures
        string_views(final(keys)@) == if string_views(old(keys)@).contains(key@) {
            string_views(old(keys)@)
        } else {
            string_views(old(keys)@).push(key@)
        },
{
    if contains_text(keys, key.as_str()) {
        return;
    }
    let ghost before = keys@;
    let ghost kv = key@;
    keys.push(key);
    assert(string_views(keys@) =~= string_views(before).push(kv));
}

} // verus!
