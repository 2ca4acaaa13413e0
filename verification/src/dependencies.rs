//! Dependencies between the mods of a list: those the jars declare, those the
//! providers report, and the provider ones that only point back at a jar
//! that needs this one.
use vstd::prelude::*;
use crate::text::{chars_of, contains, eq_str, opt_view, string_views};
use crate::mods::{ModEntry, holds_nonempty_of, merge_two, sorted_strict};
use crate::jar_deps::{JarInfo};

verus! {

pub fn same_dependency_list(left: &[String], right: &[String]) -> (r: bool)
    ensures
        r == (string_views(left@) == string_views(right@)),
{
    if left.len() != right.len() {
        proof {
            assert(string_views(left@).len() != string_views(right@).len());
        }
        return false;
    }
    let mut i: usize = 0;
    while i < left.len()
        invariant
            i <= left@.len(),
            left@.len() == right@.len(),
            forall|j: int| 0 <= j < i ==> left@[j]@ == right@[j]@,
        decreases left@.len() - i,
    {
        if left[i] != right[i] {
            assert(string_views(left@)[i as int] != string_views(right@)[i as int]);
            return false;
        }
        i = i + 1;
    }
    assert(string_views(left@) =~= string_views(right@));
    true
}

/// The jar dependencies of each mod, by key.
pub open spec fn jar_deps_view(m: Seq<(String, Vec<String>)>) -> Seq<(Seq<char>, Seq<Seq<char>>)> {
    m.map_values(|p: (String, Vec<String>)| (p.0@, string_views(p.1@)))
}

/// The value for `key`; a later entry replaces an earlier one with the same key.
pub open spec fn lookup_last<V>(m: Seq<(Seq<char>, V)>, key: Seq<char>) -> Option<V>
    decreases m.len(),
{
    if m.len() == 0 {
        None
    } else if m.last().0 == key {
        Some(m.last().1)
    } else {
        lookup_last(m.drop_last(), key)
    }
}

/// Each mod's key with its jar dependencies.
pub open spec fn deps_map(mods: Seq<ModEntry>) -> Seq<(Seq<char>, Seq<Seq<char>>)> {
    mods.map_values(|m: ModEntry| (m.key@, string_views(m.jar_dependencies@)))
}

pub fn jar_dependencies_by_key(mods: &[ModEntry]) -> (r: Vec<(String, Vec<String>)>)
    ensures
        r@.len() == mods@.len(),
        jar_deps_view(r@) == deps_map(mods@),
        forall|i: int|
            0 <= i < mods@.len() ==> (#[trigger] jar_deps_view(r@)[i]) == (mods@[i].key@, string_views(
                mods@[i].jar_dependencies@,
            )),
{
    let mut r: Vec<(String, Vec<String>)> = Vec::new();
    let mut i: usize = 0;
    while i < mods.len()
        invariant
            i <= mods@.len(),
            r@.len() == i,
            forall|j: int|
                0 <= j < i ==> (#[trigger] jar_deps_view(r@)[j]) == (mods@[j].key@, string_views(
                    mods@[j].jar_dependencies@,
                )),
        decreases mods@.len() - i,
    {
        let deps = copy_strings(&mods[i].jar_dependencies);
        let ghost before = r@;
        r.push((mods[i].key.clone(), deps));
        assert(jar_deps_view(r@) =~= jar_deps_view(before).push(
            (mods@[i as int].key@, string_views(mods@[i as int].jar_dependencies@)),
        ));
        i = i + 1;
    }
    assert(jar_deps_view(r@) =~= deps_map(mods@));
    r
}

fn copy_strings(v: &Vec<String>) -> (r: Vec<String>)
    ensures
        string_views(r@) == string_views(v@),
{
    let mut r: Vec<String> = Vec::new();
    let mut i: usize = 0;
    while i < v.len()
        invariant
            i <= v@.len(),
            string_views(r@) == string_views(v@).take(i as int),
        decreases v@.len() - i,
    {
        let ghost before = r@;
        r.push(v[i].clone());
        assert(string_views(r@) =~= string_views(before).push(v@[i as int]@));
        assert(string_views(v@).take(i + 1) =~= string_views(v@).take(i as int).push(v@[i as int]@));
        i = i + 1;
    }
    assert(string_views(v@).take(v@.len() as int) =~= string_views(v@));
    r
}

fn find_last(m: &Vec<(String, Vec<String>)>, key: &str) -> (r: Option<usize>)
    ensures
        match r {
            Some(i) => i < m@.len() && lookup_last(jar_deps_view(m@), key@) == Some(
                jar_deps_view(m@)[i as int].1,
            ),
            None => lookup_last(jar_deps_view(m@), key@) is None,
        },
{
    let ghost mv = jar_deps_view(m@);
    let kv = chars_of(key);
    let mut i: usize = m.len();
    assert(mv.take(mv.len() as int) =~= mv);
    while i > 0
        invariant
            i <= m@.len(),
            mv == jar_deps_view(m@),
            kv@ == key@,
            lookup_last(mv, key@) == lookup_last(mv.take(i as int), key@),
        decreases i,
    {
        assert(mv.take(i as int).last() == mv[i - 1]);
        assert(mv.take(i as int).drop_last() =~= mv.take(i - 1));
        if eq_str(&kv, m[i - 1].0.as_str()) {
            return Some(i - 1);
        }
        i = i - 1;
    }
    None
}

/// A provider dependency points back: the source jar does not itself need
/// `dependency_key`, but that mod's jar needs the source.
pub open spec fn points_back(
    source_key: Seq<char>,
    source_jar_dependencies: Seq<Seq<char>>,
    dependency_key: Seq<char>,
    jar_dependencies: Seq<(Seq<char>, Seq<Seq<char>>)>,
) -> bool {
    !source_jar_dependencies.contains(dependency_key) && match lookup_last(
        jar_dependencies,
        dependency_key,
    ) {
        Some(deps) => deps.contains(source_key),
        None => false,
    }
}

fn contains_key(v: &[String], x: &str) -> (r: bool)
    ensures
        r == string_views(v@).contains(x@),
{
    let xv = chars_of(x);
    let mut i: usize = 0;
    while i < v.len()
        invariant
            i <= v@.len(),
            xv@ == x@,
            forall|j: int| 0 <= j < i ==> string_views(v@)[j] != x@,
        decreases v@.len() - i,
    {
        if eq_str(&xv, v[i].as_str()) {
            assert(string_views(v@)[i as int] == x@);
            return true;
        }
        i = i + 1;
    }
    false
}

fn has_reverse_jar_dependency(
    source_key: &str,
    source_jar_dependencies: &[String],
    dependency_key: &str,
    jar_dependencies: &Vec<(String, Vec<String>)>,
) -> (r: bool)
    ensures
        r == points_back(
            source_key@,
            string_views(source_jar_dependencies@),
            dependency_key@,
            jar_deps_view(jar_dependencies@),
        ),
{
    if contains_key(source_jar_dependencies, dependency_key) {
        return false;
    }
    match find_last(jar_dependencies, dependency_key) {
        Some(i) => contains_key(jar_dependencies[i].1.as_slice(), source_key),
        None => false,
    }
}

/// `keys` without those that point back at the source.
pub open spec fn without_pointing_back(
    source_key: Seq<char>,
    source_jar_dependencies: Seq<Seq<char>>,
    keys: Seq<Seq<char>>,
    jar_dependencies: Seq<(Seq<char>, Seq<Seq<char>>)>,
) -> Seq<Seq<char>> {
    keys.filter(
        |k: Seq<char>| !points_back(source_key, source_jar_dependencies, k, jar_dependencies),
    )
}

pub fn filter_reverse_jar_dependency_keys(
    source_key: &str,
    source_jar_dependencies: &[String],
    keys: &[String],
    jar_dependencies: &Vec<(String, Vec<String>)>,
) -> (r: Vec<String>)
    ensures
        string_views(r@) == without_pointing_back(
            source_key@,
            string_views(source_jar_dependencies@),
            string_views(keys@),
            jar_deps_view(jar_dependencies@),
        ),
{
    let ghost kv = string_views(keys@);
    let ghost sj = string_views(source_jar_dependencies@);
    let ghost jd = jar_deps_view(jar_dependencies@);
    let mut r: Vec<String> = Vec::new();
    let mut i: usize = 0;
    assert(kv.take(0) =~= Seq::<Seq<char>>::empty());
    while i < keys.len()
        invariant
            i <= keys@.len(),
            kv == string_views(keys@),
            sj == string_views(source_jar_dependencies@),
            jd == jar_deps_view(jar_dependencies@),
            string_views(r@) == without_pointing_back(source_key@, sj, kv.take(i as int), jd),
        decreases keys@.len() - i,
    {
        proof {
            assert(kv.take(i + 1).drop_last() =~= kv.take(i as int));
            assert(kv.take(i + 1).last() == keys@[i as int]@);
            reveal(Seq::filter);
        }
        let ghost before = r@;
        if !has_reverse_jar_dependency(source_key, source_jar_dependencies, keys[i].as_str(), jar_dependencies) {
            r.push(keys[i].clone());
            assert(string_views(r@) =~= string_views(before).push(keys@[i as int]@));
        }
        i = i + 1;
    }
    assert(kv.take(keys@.len() as int) =~= kv);
    r
}

/// The dependencies `item` keeps once provider dependencies that point back
/// are dropped.
pub open spec fn pruned_dependencies(
    item: ModEntry,
    jar_dependencies: Seq<(Seq<char>, Seq<Seq<char>>)>,
) -> Seq<Seq<char>> {
    without_pointing_back(
        item.key@,
        string_views(item.jar_dependencies@),
        string_views(item.dependencies@),
        jar_dependencies,
    )
}

/// `after` is `before` with new dependencies and the resolved list rebuilt
/// from them and the jar dependencies.
pub open spec fn with_dependencies(before: ModEntry, after: ModEntry, deps: Seq<Seq<char>>) -> bool {
    &&& string_views(after.dependencies@) == deps
    &&& sorted_strict(string_views(after.resolved_dependencies@))
    &&& holds_nonempty_of(
        string_views(after.resolved_dependencies@),
        deps + string_views(after.jar_dependencies@),
    )
    &&& after == ModEntry {
        dependencies: after.dependencies,
        resolved_dependencies: after.resolved_dependencies,
        ..before
    }
}

/// Drops, from every mod, the provider dependencies that point back at it;
/// says whether any list changed.
pub fn prune_reverse_jar_dependencies(mods: &mut Vec<ModEntry>) -> (changed: bool)
    ensures
        final(mods)@.len() == old(mods)@.len(),
        changed <==> exists|i: int|
            0 <= i < old(mods)@.len() && pruned_dependencies(
                #[trigger] old(mods)@[i],
                deps_map(old(mods)@),
            ) != string_views(old(mods)@[i].dependencies@),
        forall|i: int|
            0 <= i < old(mods)@.len() ==> {
                let next = pruned_dependencies(
                    #[trigger] old(mods)@[i],
                    deps_map(old(mods)@),
                );
                &&& next == string_views(old(mods)@[i].dependencies@) ==> final(mods)@[i]
                    == old(mods)@[i]
                &&& next != string_views(old(mods)@[i].dependencies@) ==> with_dependencies(
                    old(mods)@[i],
                    final(mods)@[i],
                    next,
                )
            },
{
    let jar_dependencies = jar_dependencies_by_key(mods.as_slice());
    proof {
        assert(jar_deps_view(jar_dependencies@) =~= deps_map(old(mods)@));
    }
    let ghost jd = jar_deps_view(jar_dependencies@);
    let ghost orig = mods@;
    let mut changed = false;
    let mut i: usize = 0;
    while i < mods.len()
        invariant
            i <= mods@.len(),
            mods@.len() == orig.len(),
            orig == old(mods)@,
            jd == jar_deps_view(jar_dependencies@),
            jd == deps_map(orig),
            forall|j: int| i <= j < orig.len() ==> mods@[j] == orig[j],
            changed <==> exists|j: int|
                0 <= j < i && pruned_dependencies(#[trigger] orig[j], jd) != string_views(
                    orig[j].dependencies@,
                ),
            forall|j: int|
                0 <= j < i ==> {
                    let next = pruned_dependencies(#[trigger] orig[j], jd);
                    &&& next == string_views(orig[j].dependencies@) ==> mods@[j] == orig[j]
                    &&& next != string_views(orig[j].dependencies@) ==> with_dependencies(
                        orig[j],
                        mods@[j],
                        next,
                    )
                },
        decreases orig.len() - i,
    {
        let next = filter_reverse_jar_dependency_keys(
            mods[i].key.as_str(),
            mods[i].jar_dependencies.as_slice(),
            mods[i].dependencies.as_slice(),
            &jar_dependencies,
        );
        assert(mods@[i as int] == orig[i as int]);
        assert(string_views(next@) == pruned_dependencies(orig[i as int], jd));
        if !same_dependency_list(next.as_slice(), mods[i].dependencies.as_slice()) {
            let ghost before = mods@;
            let mut item = mods.remove(i);
            let resolved = merge_two(&next, &item.jar_dependencies);
            item.dependencies = next;
            item.resolved_dependencies = resolved;
            mods.insert(i, item);
            proof {
                assert forall|j: int| 0 <= j < orig.len() && j != i implies mods@[j] == before[j] by {
                    if j < i {
                        assert(mods@[j] == before[j]);
                    } else {
                        assert(mods@[j] == before[j]);
                    }
                }
            }
            changed = true;
        }
        assert(pruned_dependencies(orig[i as int], jd) != string_views(orig[i as int].dependencies@)
            ==> changed);
        i = i + 1;
    }
    changed
}

pub open spec fn info_map(infos: Seq<(String, JarInfo)>) -> Seq<(Seq<char>, JarInfo)> {
    infos.map_values(|p: (String, JarInfo)| (p.0@, p.1))
}

/// `after` is `before` with what its jar says: the jar's name unless a name
/// is fixed already, the jar's version when it has one, and the jar's
/// dependencies; the resolved list is rebuilt.
pub open spec fn with_jar_info(before: ModEntry, after: ModEntry, info: Option<JarInfo>) -> bool {
    let takes_name = match info {
        Some(j) => !before.display_name_locked && j.display_name is Some,
        None => false,
    };
    &&& after.display_name@ == if takes_name {
        info->0.display_name->0@
    } else {
        before.display_name@
    }
    &&& after.display_name_locked == (before.display_name_locked || takes_name)
    &&& opt_view(after.installed_version) == match info {
        Some(j) => match j.version {
            Some(v) => Some(v@),
            None => opt_view(before.installed_version),
        },
        None => opt_view(before.installed_version),
    }
    &&& string_views(after.jar_dependencies@) == match info {
        Some(j) => string_views(j.dependency_keys@),
        None => Seq::<Seq<char>>::empty(),
    }
    &&& sorted_strict(string_views(after.resolved_dependencies@))
    &&& holds_nonempty_of(
        string_views(after.resolved_dependencies@),
        string_views(before.dependencies@) + string_views(after.jar_dependencies@),
    )
    &&& after == ModEntry {
        display_name: after.display_name,
        display_name_locked: after.display_name_locked,
        installed_version: after.installed_version,
        jar_dependencies: after.jar_dependencies,
        resolved_dependencies: after.resolved_dependencies,
        ..before
    }
}

fn find_info(infos: &Vec<(String, JarInfo)>, key: &str) -> (r: Option<usize>)
    ensures
        match r {
            Some(i) => i < infos@.len() && lookup_last(info_map(infos@), key@) == Some(
                infos@[i as int].1,
            ),
            None => lookup_last(info_map(infos@), key@) is None,
        },
{
    let ghost mv = info_map(infos@);
    let kv = chars_of(key);
    let mut i: usize = infos.len();
    assert(mv.take(mv.len() as int) =~= mv);
    while i > 0
        invariant
            i <= infos@.len(),
            mv == info_map(infos@),
            kv@ == key@,
            lookup_last(mv, key@) == lookup_last(mv.take(i as int), key@),
        decreases i,
    {
        assert(mv.take(i as int).last() == mv[i - 1]);
        assert(mv.take(i as int).drop_last() =~= mv.take(i - 1));
        if eq_str(&kv, infos[i - 1].0.as_str()) {
            return Some(i - 1);
        }
        i = i - 1;
    }
    None
}

/// What its jar says, applied to one mod.
pub fn apply_jar_info(item: ModEntry, info: Option<&JarInfo>) -> (r: ModEntry)
    ensures
        with_jar_info(item, r, match info {
            Some(j) => Some(*j),
            None => None,
        }),
{
    let mut item = item;
    match info {
        Some(info) => {
            if !item.display_name_locked {
                match &info.display_name {
                    Some(n) => {
                        item.display_name = n.clone();
                        item.display_name_locked = true;
                    },
                    None => {},
                }
            }
            match &info.version {
                Some(v) => {
                    item.installed_version = Some(v.clone());
                },
                None => {},
            }
            item.jar_dependencies = copy_strings(&info.dependency_keys);
        },
        None => {
            item.jar_dependencies = Vec::new();
            assert(string_views(item.jar_dependencies@) =~= Seq::<Seq<char>>::empty());
        },
    }
    item.resolved_dependencies = merge_two(&item.dependencies, &item.jar_dependencies);
    item
}

/// Applies to every mod what its jar says (`infos` by key, a later entry
/// replacing an earlier one).
pub fn apply_jar_infos(mods: &mut Vec<ModEntry>, infos: &Vec<(String, JarInfo)>)
    ensures
        final(mods)@.len() == old(mods)@.len(),
        forall|i: int|
            0 <= i < old(mods)@.len() ==> with_jar_info(
                #[trigger] old(mods)@[i],
                final(mods)@[i],
                lookup_last(info_map(infos@), old(mods)@[i].key@),
            ),
{
    let ghost orig = mods@;
    let mut i: usize = 0;
    while i < mods.len()
        invariant
            i <= mods@.len(),
            mods@.len() == orig.len(),
            orig == old(mods)@,
            forall|j: int| i <= j < orig.len() ==> mods@[j] == orig[j],
            forall|j: int|
                0 <= j < i ==> with_jar_info(
                    #[trigger] orig[j],
                    mods@[j],
                    lookup_last(info_map(infos@), orig[j].key@),
                ),
        decreases orig.len() - i,
    {
        let ghost before = mods@;
        let item = mods.remove(i);
        let p = find_info(infos, item.key.as_str());
        let updated = match p {
            Some(p) => apply_jar_info(item, Some(&infos[p].1)),
            None => apply_jar_info(item, None),
        };
        mods.insert(i, updated);
        proof {
            assert forall|j: int| 0 <= j < orig.len() && j != i implies mods@[j] == before[j] by {
                assert(mods@[j] == before[j]);
            }
        }
        i = i + 1;
    }
}

} // verus!
