//! Which Minecraft version and mod loader an instance targets, and whether a
//! provider's file fits them.
use vstd::prelude::*;
use crate::text::{chars_of, contains, contains_str, eq_ignore_case, eq_ignore_case_chars, eq_str, find, find_chars, lemma_find_from_bounds, lemma_seq_lt_asymmetric, lemma_seq_lt_irreflexive, lemma_seq_lt_total, lemma_seq_lt_transitive, lines, lines_chars, lower, matches_at, opt_view, seq_lt, slice_chars, starts_with, starts_with_str, str_lt, string_of, string_views, to_lower, trim, trim_chars, trim_string, trimmed, views};
use crate::mod_names::{loader_hint, loader_hint_from_filename, minecraft_version_hint, minecraft_version_hint_from_filename};

verus! {

pub struct InstanceTarget {
    pub minecraft_version: Option<String>,
    pub loader: Option<String>,
}

/// Names compare trimmed and without regard to ASCII case.
pub open spec fn same_name(a: Seq<char>, b: Seq<char>) -> bool {
    eq_ignore_case(trim(a), trim(b))
}

pub fn game_version_matches(candidate: &str, target: &str) -> (r: bool)
    ensures
        r == same_name(candidate@, target@),
{
    let a = trimmed(candidate);
    let b = trimmed(target);
    eq_ignore_case_chars(&a, &b)
}

pub fn loader_matches(candidate: &str, target: &str) -> (r: bool)
    ensures
        r == same_name(candidate@, target@),
{
    let a = trimmed(candidate);
    let b = trimmed(target);
    eq_ignore_case_chars(&a, &b)
}

/// A filter of the target: the value trimmed, when not blank.
pub open spec fn filter_of(v: Option<Seq<char>>) -> Option<Seq<char>> {
    match v {
        Some(s) => if trim(s).len() > 0 {
            Some(trim(s))
        } else {
            None
        },
        None => None,
    }
}

pub open spec fn any_matches(values: Seq<Seq<char>>, wanted: Seq<char>) -> bool {
    exists|i: int| 0 <= i < values.len() && same_name(#[trigger] values[i], wanted)
}

/// A file fits when it lists the target's Minecraft version and loader, for
/// those the target sets.
pub open spec fn fits_target(game_versions: Seq<Seq<char>>, loaders: Seq<Seq<char>>, target: InstanceTarget) -> bool {
    &&& match filter_of(opt_view(target.minecraft_version)) {
        Some(mc) => any_matches(game_versions, mc),
        None => true,
    }
    &&& match filter_of(opt_view(target.loader)) {
        Some(l) => any_matches(loaders, l),
        None => true,
    }
}

fn any_match_exec(values: &[String], wanted: &str) -> (r: bool)
    ensures
        r == any_matches(string_views(values@), wanted@),
{
    let mut i: usize = 0;
    while i < values.len()
        invariant
            i <= values@.len(),
            forall|j: int| 0 <= j < i ==> !same_name(#[trigger] string_views(values@)[j], wanted@),
        decreases values@.len() - i,
    {
        if game_version_matches(values[i].as_str(), wanted) {
            assert(same_name(string_views(values@)[i as int], wanted@));
            return true;
        }
        i = i + 1;
    }
    false
}

fn filter_exec(v: &Option<String>) -> (r: Option<String>)
    ensures
        opt_view(r) == filter_of(opt_view(*v)),
{
    match v {
        Some(s) => {
            let t = trim_string(s.as_str());
            if t.as_str().is_empty() {
                None
            } else {
                Some(t)
            }
        },
        None => None,
    }
}

pub fn version_matches_target(game_versions: &[String], loaders: &[String], target: &InstanceTarget) -> (r: bool)
    ensures
        r == fits_target(string_views(game_versions@), string_views(loaders@), *target),
{
    match filter_exec(&target.minecraft_version) {
        Some(mc) => {
            if !any_match_exec(game_versions, mc.as_str()) {
                return false;
            }
        },
        None => {},
    }
    match filter_exec(&target.loader) {
        Some(l) => {
            if !any_match_exec(loaders, l.as_str()) {
                return false;
            }
        },
        None => {},
    }
    true
}

pub fn target_has_filters(target: &InstanceTarget) -> (r: bool)
    ensures
        r == (filter_of(opt_view(target.minecraft_version)) is Some || filter_of(
            opt_view(target.loader),
        ) is Some),
{
    filter_exec(&target.minecraft_version).is_some() || filter_exec(&target.loader).is_some()
}

/// What `target` does not know yet is taken from `other`.
pub fn merge_target(target: &mut InstanceTarget, other: InstanceTarget)
    ensures
        opt_view(final(target).minecraft_version) == match opt_view(old(target).minecraft_version) {
            Some(v) => Some(v),
            None => opt_view(other.minecraft_version),
        },
        opt_view(final(target).loader) == match opt_view(old(target).loader) {
            Some(v) => Some(v),
            None => opt_view(other.loader),
        },
{
    if target.minecraft_version.is_none() {
        target.minecraft_version = other.minecraft_version;
    }
    if target.loader.is_none() {
        target.loader = other.loader;
    }
}

// ---------------------------------------------------------------------------
// Sources of the target
// ---------------------------------------------------------------------------

/// The loader a component of `mmc-pack.json` names.
pub open spec fn component_loader(uid: Seq<char>) -> Option<Seq<char>> {
    if uid == "net.neoforged"@ {
        Some("neoforge"@)
    } else if uid == "net.minecraftforge"@ {
        Some("forge"@)
    } else if uid == "net.fabricmc.fabric-loader"@ {
        Some("fabric"@)
    } else if uid == "org.quiltmc.quilt-loader"@ {
        Some("quilt"@)
    } else {
        None
    }
}

pub open spec fn pack_fold(components: Seq<(Seq<char>, Option<Seq<char>>)>) -> (Option<Seq<char>>, Option<Seq<char>>)
    decreases components.len(),
{
    if components.len() == 0 {
        (None, None)
    } else {
        let prev = pack_fold(components.drop_last());
        let (uid, version) = components.last();
        if uid == "net.minecraft"@ {
            (version, prev.1)
        } else {
            match component_loader(uid) {
                Some(l) => (prev.0, Some(l)),
                None => prev,
            }
        }
    }
}

/// The uids of the loader components of `mmc-pack.json`.
pub open spec fn is_loader_uid(uid: Seq<char>) -> bool {
    uid == "net.neoforged"@ || uid == "net.minecraftforge"@ || uid == "net.fabricmc.fabric-loader"@ || uid
        == "org.quiltmc.quilt-loader"@
}

/// The loader name of a loader uid.
pub open spec fn loader_name_of(uid: Seq<char>) -> Seq<char> {
    if uid == "net.neoforged"@ {
        "neoforge"@
    } else if uid == "net.minecraftforge"@ {
        "forge"@
    } else if uid == "net.fabricmc.fabric-loader"@ {
        "fabric"@
    } else {
        "quilt"@
    }
}

proof fn lemma_minecraft_uid_is_no_loader()
    ensures
        !is_loader_uid("net.minecraft"@),
{
    reveal_strlit("net.minecraft");
    reveal_strlit("net.neoforged");
    reveal_strlit("net.minecraftforge");
    reveal_strlit("net.fabricmc.fabric-loader");
    reveal_strlit("org.quiltmc.quilt-loader");
    assert("net.minecraft"@[4] != "net.neoforged"@[4]);
    assert("net.minecraft"@.len() != "net.minecraftforge"@.len());
    assert("net.minecraft"@.len() != "net.fabricmc.fabric-loader"@.len());
    assert("net.minecraft"@.len() != "org.quiltmc.quilt-loader"@.len());
}

/// The loader of a pack is named by its last loader component:
/// `net.neoforged` is NeoForge, `net.minecraftforge` Forge,
/// `net.fabricmc.fabric-loader` Fabric and `org.quiltmc.quilt-loader` Quilt.
pub proof fn lemma_last_loader_component_names_loader(components: Seq<(Seq<char>, Option<Seq<char>>)>, i: int)
    requires
        0 <= i < components.len(),
        is_loader_uid(components[i].0),
        forall|j: int| i < j < components.len() ==> !is_loader_uid(#[trigger] components[j].0),
    ensures
        pack_fold(components).1 == Some(loader_name_of(components[i].0)),
    decreases components.len(),
{
    lemma_minecraft_uid_is_no_loader();
    let n = components.len() - 1;
    let prev = components.drop_last();
    assert(components.last() == components[n]);
    if i < n {
        assert forall|j: int| i < j < prev.len() implies !is_loader_uid(#[trigger] prev[j].0) by {
            assert(prev[j] == components[j]);
        }
        assert(prev[i] == components[i]);
        lemma_last_loader_component_names_loader(prev, i);
        assert(!is_loader_uid(components[n].0));
    }
}

/// A pack without a loader component names no loader.
pub proof fn lemma_no_loader_component(components: Seq<(Seq<char>, Option<Seq<char>>)>)
    requires
        forall|j: int| 0 <= j < components.len() ==> !is_loader_uid(#[trigger] components[j].0),
    ensures
        pack_fold(components).1 is None,
    decreases components.len(),
{
    if components.len() > 0 {
        let prev = components.drop_last();
        assert forall|j: int| 0 <= j < prev.len() implies !is_loader_uid(#[trigger] prev[j].0) by {
            assert(prev[j] == components[j]);
        }
        lemma_no_loader_component(prev);
        assert(components.last() == components[components.len() - 1]);
    }
}

/// The Minecraft version of a pack is that of its last `net.minecraft`
/// component.
pub proof fn lemma_last_minecraft_component_names_version(components: Seq<(Seq<char>, Option<Seq<char>>)>, i: int)
    requires
        0 <= i < components.len(),
        components[i].0 == "net.minecraft"@,
        forall|j: int| i < j < components.len() ==> #[trigger] components[j].0 != "net.minecraft"@,
    ensures
        pack_fold(components).0 == components[i].1,
    decreases components.len(),
{
    let n = components.len() - 1;
    let prev = components.drop_last();
    assert(components.last() == components[n]);
    if i < n {
        assert forall|j: int| i < j < prev.len() implies #[trigger] prev[j].0 != "net.minecraft"@ by {
            assert(prev[j] == components[j]);
        }
        assert(prev[i] == components[i]);
        lemma_last_minecraft_component_names_version(prev, i);
    }
}

pub open spec fn component_views(c: Seq<(String, Option<String>)>) -> Seq<(Seq<char>, Option<Seq<char>>)> {
    c.map_values(|p: (String, Option<String>)| (p.0@, opt_view(p.1)))
}

/// The target `mmc-pack.json` names through its components (uid and
/// version); none when it names neither part.
pub fn target_from_components(components: &Vec<(String, Option<String>)>) -> (r: Option<InstanceTarget>)
    ensures
        ({
            let (mc, loader) = pack_fold(component_views(components@));
            &&& r is Some <==> (mc is Some || loader is Some)
            &&& r matches Some(t) ==> opt_view(t.minecraft_version) == mc && opt_view(t.loader) == loader
        }),
{
    let ghost cv = component_views(components@);
    let mut t = InstanceTarget { minecraft_version: None, loader: None };
    let mut i: usize = 0;
    assert(cv.take(0) =~= Seq::<(Seq<char>, Option<Seq<char>>)>::empty());
    while i < components.len()
        invariant
            i <= components@.len(),
            cv == component_views(components@),
            (opt_view(t.minecraft_version), opt_view(t.loader)) == pack_fold(cv.take(i as int)),
        decreases components@.len() - i,
    {
        assert(cv.take(i + 1).drop_last() =~= cv.take(i as int));
        assert(cv.take(i + 1).last() == (components@[i as int].0@, opt_view(components@[i as int].1)));
        let uid = chars_of(components[i].0.as_str());
        if eq_str(&uid, "net.minecraft") {
            t.minecraft_version = match &components[i].1 {
                Some(v) => Some(v.clone()),
                None => None,
            };
        } else if eq_str(&uid, "net.neoforged") {
            t.loader = Some("neoforge".to_string());
        } else if eq_str(&uid, "net.minecraftforge") {
            t.loader = Some("forge".to_string());
        } else if eq_str(&uid, "net.fabricmc.fabric-loader") {
            t.loader = Some("fabric".to_string());
        } else if eq_str(&uid, "org.quiltmc.quilt-loader") {
            t.loader = Some("quilt".to_string());
        }
        i = i + 1;
    }
    assert(cv.take(components@.len() as int) =~= cv);
    if t.minecraft_version.is_some() || t.loader.is_some() {
        Some(t)
    } else {
        None
    }
}

/// The loader a value of `instance.cfg` mentions.
pub open spec fn cfg_loader(value: Seq<char>) -> Option<Seq<char>> {
    let l = lower(value);
    if contains(l, "neoforge"@) {
        Some("neoforge"@)
    } else if contains(l, "forge"@) {
        Some("forge"@)
    } else if contains(l, "fabric"@) {
        Some("fabric"@)
    } else if contains(l, "quilt"@) {
        Some("quilt"@)
    } else {
        None
    }
}

pub open spec fn cfg_step(st: (Option<Seq<char>>, Option<Seq<char>>), line: Seq<char>) -> (Option<Seq<char>>, Option<Seq<char>>) {
    match find(line, "="@) {
        None => st,
        Some(i) => {
            let key = line.subrange(0, i);
            let value = line.subrange(i + 1, line.len() as int);
            let mc = if key == "IntendedVersion"@ && trim(value).len() > 0 {
                Some(trim(value))
            } else {
                st.0
            };
            let loader = match cfg_loader(value) {
                Some(l) => Some(l),
                None => st.1,
            };
            (mc, loader)
        },
    }
}

pub open spec fn cfg_fold(ls: Seq<Seq<char>>) -> (Option<Seq<char>>, Option<Seq<char>>)
    decreases ls.len(),
{
    if ls.len() == 0 {
        (None, None)
    } else {
        cfg_step(cfg_fold(ls.drop_last()), ls.last())
    }
}

/// The target an `mmc-pack.json` text names (see `target_from_components`);
/// none where the text lists no components.
pub fn target_from_mmc_pack(text: &str) -> (r: Option<InstanceTarget>)
    ensures
        match crate::pack_index::json_components(text@) {
            None => r is None,
            Some(c) => {
                let (mc, loader) = pack_fold(crate::pack_index::uid_or_blank(c));
                &&& r is Some <==> (mc is Some || loader is Some)
                &&& r matches Some(t) ==> opt_view(t.minecraft_version) == mc && opt_view(t.loader) == loader
            },
        },
{
    match crate::pack_index::mmc_pack_components(text) {
        Some(components) => target_from_components(&components),
        None => None,
    }
}

/// The target `instance.cfg` names: `IntendedVersion`, and a loader any
/// value mentions (a later line replaces an earlier one).
pub fn target_from_instance_cfg(text: &str) -> (r: InstanceTarget)
    ensures
        (opt_view(r.minecraft_version), opt_view(r.loader)) == cfg_fold(lines(text@)),
{
    let v = chars_of(text);
    let ls = lines_chars(&v);
    let ghost lv = views(ls@);
    let mut t = InstanceTarget { minecraft_version: None, loader: None };
    let mut k: usize = 0;
    assert(lv.take(0) =~= Seq::<Seq<char>>::empty());
    let eq = chars_of("=");
    proof {
        reveal_strlit("=");
    }
    while k < ls.len()
        invariant
            k <= ls@.len(),
            lv == views(ls@),
            lv == lines(text@),
            eq@ == "="@,
            "="@.len() == 1,
            (opt_view(t.minecraft_version), opt_view(t.loader)) == cfg_fold(lv.take(k as int)),
        decreases ls@.len() - k,
    {
        assert(lv.take(k + 1).drop_last() =~= lv.take(k as int));
        assert(lv.take(k + 1).last() == ls@[k as int]@);
        let line = &ls[k];
        let n = line.len();
        match find_chars(line, &eq) {
            None => {},
            Some(i) => {
                proof {
                    lemma_find_from_bounds(line@, eq@, 0);
                    assert(find(line@, eq@) == Some(i as int));
                    assert(matches_at(line@, i as int, eq@));
                    assert(eq@.len() == 1);
                }
                let key = slice_chars(line, 0, i);
                let value = slice_chars(line, i + 1, n);
                let tv = trim_chars(&value);
                if eq_str(&key, "IntendedVersion") && tv.len() > 0 {
                    t.minecraft_version = Some(string_of(&tv));
                }
                let l = to_lower(&value);
                if contains_str(&l, "neoforge") {
                    t.loader = Some("neoforge".to_string());
                } else if contains_str(&l, "forge") {
                    t.loader = Some("forge".to_string());
                } else if contains_str(&l, "fabric") {
                    t.loader = Some("fabric".to_string());
                } else if contains_str(&l, "quilt") {
                    t.loader = Some("quilt".to_string());
                }
            },
        }
        k = k + 1;
    }
    assert(lv.take(ls@.len() as int) =~= lv);
    t
}

/// `a` comes after `b` when versions folders are ranked: longer first, then
/// later in `String` order.
pub open spec fn ranks_above(a: Seq<char>, b: Seq<char>) -> bool {
    a.len() > b.len() || (a.len() == b.len() && seq_lt(b, a))
}

/// The Minecraft version of the `versions` folder: among the folder names
/// starting `1.`, the highest ranked.
pub fn version_from_folder_names(names: &Vec<String>) -> (r: Option<String>)
    ensures
        r is None <==> forall|i: int| 0 <= i < names@.len() ==> !starts_with(#[trigger] names@[i]@, "1."@),
        r matches Some(v) ==> exists|i: int|
            0 <= i < names@.len() && starts_with(#[trigger] names@[i]@, "1."@) && names@[i]@ == v@ && forall|
                j: int,
            |
                0 <= j < names@.len() && starts_with(#[trigger] names@[j]@, "1."@) ==> !ranks_above(
                    names@[j]@,
                    v@,
                ),
{
    let mut best: Option<usize> = None;
    let mut i: usize = 0;
    while i < names.len()
        invariant
            i <= names@.len(),
            match best {
                Some(b) => b < i && starts_with(names@[b as int]@, "1."@) && forall|j: int|
                    0 <= j < i && starts_with(#[trigger] names@[j]@, "1."@) ==> !ranks_above(
                        names@[j]@,
                        names@[b as int]@,
                    ),
                None => forall|j: int| 0 <= j < i ==> !starts_with(#[trigger] names@[j]@, "1."@),
            },
        decreases names@.len() - i,
    {
        let nv = chars_of(names[i].as_str());
        if starts_with_str(&nv, "1.") {
            match best {
                None => {
                    best = Some(i);
                    proof {
                        lemma_seq_lt_irreflexive(names@[i as int]@);
                    }
                },
                Some(b) => {
                    let bv = chars_of(names[b].as_str());
                    let above = nv.len() > bv.len() || (nv.len() == bv.len() && str_lt(
                        names[b].as_str(),
                        names[i].as_str(),
                    ));
                    if above {
                        best = Some(i);
                        proof {
                            lemma_seq_lt_irreflexive(names@[i as int]@);
                            assert forall|j: int|
                                0 <= j < i + 1 && starts_with(#[trigger] names@[j]@, "1."@) implies !ranks_above(
                                names@[j]@,
                                names@[i as int]@,
                            ) by {
                                if j < i {
                                    let a = names@[j]@;
                                    let bb = names@[b as int]@;
                                    let c = names@[i as int]@;
                                    if ranks_above(a, c) && a.len() == c.len() && bb.len() == c.len() {
                                        lemma_seq_lt_transitive(bb, c, a);
                                    }
                                    if ranks_above(a, c) && a.len() == bb.len() {
                                        lemma_seq_lt_total(a, bb);
                                    }
                                }
                            }
                        }
                    } else {
                        proof {
                            lemma_seq_lt_total(names@[i as int]@, names@[b as int]@);
                            lemma_seq_lt_asymmetric(names@[i as int]@, names@[b as int]@);
                        }
                    }
                },
            }
        }
        i = i + 1;
    }
    match best {
        None => None,
        Some(b) => Some(names[b].clone()),
    }
}

// ---------------------------------------------------------------------------
// Votes of the mods folder
// ---------------------------------------------------------------------------

pub open spec fn vote_views(v: Seq<(String, u32)>) -> Seq<(Seq<char>, int)> {
    v.map_values(|p: (String, u32)| (p.0@, p.1 as int))
}

/// The votes for `key`.
pub open spec fn votes_for(v: Seq<(Seq<char>, int)>, key: Seq<char>) -> int
    decreases v.len(),
{
    if v.len() == 0 {
        0
    } else {
        votes_for(v.drop_last(), key) + if v.last().0 == key {
            v.last().1
        } else {
            0
        }
    }
}

/// A vote ranks above another by its count, then by a longer name, then
/// later in `String` order.
pub open spec fn vote_above(a: (Seq<char>, int), b: (Seq<char>, int)) -> bool {
    a.1 > b.1 || (a.1 == b.1 && ranks_above(a.0, b.0))
}

/// The winner of a vote, when it has at least `min_votes`.
pub fn pick_majority(votes: &Vec<(String, u32)>, min_votes: u32) -> (r: Option<String>)
    ensures
        votes@.len() == 0 ==> r is None,
        votes@.len() > 0 ==> exists|i: int|
            0 <= i < votes@.len() && (forall|j: int|
                0 <= j < votes@.len() ==> !vote_above(
                    #[trigger] vote_views(votes@)[j],
                    vote_views(votes@)[i],
                )) && (if votes@[i].1 >= min_votes {
                r matches Some(s) && s@ == votes@[i].0@
            } else {
                r is None
            }),
{
    if votes.len() == 0 {
        return None;
    }
    let ghost vv = vote_views(votes@);
    let mut best: usize = 0;
    let mut i: usize = 1;
    proof {
        lemma_seq_lt_irreflexive(vv[0].0);
    }
    while i < votes.len()
        invariant
            1 <= i <= votes@.len(),
            vv == vote_views(votes@),
            best < i,
            forall|j: int| 0 <= j < i ==> !vote_above(#[trigger] vv[j], vv[best as int]),
        decreases votes@.len() - i,
    {
        let (bn, bc) = (&votes[best].0, votes[best].1);
        let (n, c) = (&votes[i].0, votes[i].1);
        let bl = chars_of(bn.as_str()).len();
        let nl = chars_of(n.as_str()).len();
        let above = c > bc || (c == bc && (nl > bl || (nl == bl && str_lt(bn.as_str(), n.as_str()))));
        if above {
            proof {
                lemma_seq_lt_irreflexive(vv[i as int].0);
                assert forall|j: int| 0 <= j < i + 1 implies !vote_above(#[trigger] vv[j], vv[i as int]) by {
                    if j < i {
                        let a = vv[j].0;
                        let b = vv[best as int].0;
                        let x = vv[i as int].0;
                        if a.len() == x.len() && b.len() == x.len() && vv[j].1 == vv[i as int].1 && vv[best as int].1 == vv[i as int].1 {
                            if seq_lt(x, a) {
                                lemma_seq_lt_transitive(b, x, a);
                            }
                        }
                        if vv[j].1 == vv[best as int].1 && a.len() == b.len() {
                            lemma_seq_lt_total(a, b);
                        }
                    }
                }
            }
            best = i;
        } else {
            proof {
                lemma_seq_lt_total(vv[i as int].0, vv[best as int].0);
                lemma_seq_lt_asymmetric(vv[i as int].0, vv[best as int].0);
            }
        }
        i = i + 1;
    }
    if votes[best].1 >= min_votes {
        Some(votes[best].0.clone())
    } else {
        None
    }
}

pub open spec fn keys_distinct(v: Seq<(Seq<char>, int)>) -> bool {
    forall|i: int, j: int| 0 <= i < j < v.len() ==> (#[trigger] v[i]).0 != (#[trigger] v[j]).0
}

proof fn lemma_votes_for_push(v: Seq<(Seq<char>, int)>, x: (Seq<char>, int), key: Seq<char>)
    ensures
        votes_for(v.push(x), key) == votes_for(v, key) + if x.0 == key {
            x.1
        } else {
            0
        },
{
    assert(v.push(x).drop_last() =~= v);
}

proof fn lemma_votes_for_update(v: Seq<(Seq<char>, int)>, i: int, w: int, key: Seq<char>)
    requires
        0 <= i < v.len(),
    ensures
        votes_for(v.update(i, (v[i].0, v[i].1 + w)), key) == votes_for(v, key) + if v[i].0 == key {
            w
        } else {
            0
        },
    decreases v.len(),
{
    if i == v.len() - 1 {
        assert(v.update(i, (v[i].0, v[i].1 + w)).drop_last() =~= v.drop_last());
    } else {
        lemma_votes_for_update(v.drop_last(), i, w, key);
        assert(v.update(i, (v[i].0, v[i].1 + w)).drop_last() =~= v.drop_last().update(
            i,
            (v[i].0, v[i].1 + w),
        ));
    }
}

proof fn lemma_votes_absent(v: Seq<(Seq<char>, int)>, key: Seq<char>)
    requires
        forall|j: int| 0 <= j < v.len() ==> (#[trigger] v[j]).0 != key,
    ensures
        votes_for(v, key) == 0,
    decreases v.len(),
{
    if v.len() > 0 {
        lemma_votes_absent(v.drop_last(), key);
    }
}

proof fn lemma_votes_single(v: Seq<(Seq<char>, int)>, i: int)
    requires
        keys_distinct(v),
        0 <= i < v.len(),
    ensures
        votes_for(v, v[i].0) == v[i].1,
    decreases v.len(),
{
    if i == v.len() - 1 {
        assert forall|j: int| 0 <= j < v.drop_last().len() implies (#[trigger] v.drop_last()[j]).0
            != v[i].0 by {
            assert(v[j].0 != v[i].0);
        }
        lemma_votes_absent(v.drop_last(), v[i].0);
    } else {
        lemma_votes_single(v.drop_last(), i);
        assert(v.last().0 != v[i].0);
    }
}

/// Adds `w` votes for `key`.
fn add_vote(votes: &mut Vec<(String, u32)>, key: String, w: u32)
    requires
        keys_distinct(vote_views(old(votes)@)),
        forall|k: Seq<char>| votes_for(vote_views(old(votes)@), k) + w <= 0xffff_ffff,
    ensures
        keys_distinct(vote_views(final(votes)@)),
        forall|k: Seq<char>|
            votes_for(vote_views(final(votes)@), k) == votes_for(vote_views(old(votes)@), k) + if k
                == key@ {
                w as int
            } else {
                0
            },
{
    let ghost before = vote_views(votes@);
    let kv = chars_of(key.as_str());
    let mut i: usize = 0;
    while i < votes.len()
        invariant
            i <= votes@.len(),
            votes@ == old(votes)@,
            before == vote_views(votes@),
            kv@ == key@,
            keys_distinct(before),
            forall|k: Seq<char>| votes_for(before, k) + w <= 0xffff_ffff,
            forall|j: int| 0 <= j < i ==> (#[trigger] before[j]).0 != key@,
        decreases votes@.len() - i,
    {
        if eq_str(&kv, votes[i].0.as_str()) {
            proof {
                lemma_votes_single(before, i as int);
                assert(votes_for(before, key@) + w <= 0xffff_ffff);
            }
            let c = votes[i].1;
            let name = votes[i].0.clone();
            votes.set(i, (name, c + w));
            proof {
                assert(vote_views(votes@) =~= before.update(i as int, (before[i as int].0, before[i as int].1 + w)));
                assert forall|k: Seq<char>| votes_for(vote_views(votes@), k) == votes_for(before, k) + if k
                    == key@ {
                    w as int
                } else {
                    0
                } by {
                    lemma_votes_for_update(before, i as int, w as int, k);
                }
            }
            return;
        }
        i = i + 1;
    }
    votes.push((key, w));
    proof {
        assert(vote_views(votes@) =~= before.push((kv@, w as int)));
        assert forall|k: Seq<char>| votes_for(vote_views(votes@), k) == votes_for(before, k) + if k == kv@ {
            w as int
        } else {
            0
        } by {
            lemma_votes_for_push(before, (kv@, w as int), k);
        }
    }
}

/// The weight of a jar's vote for its loader: a loader jar itself counts a
/// hundred.
pub open spec fn loader_weight(name: Seq<char>) -> int {
    if contains(lower(name), "-loader"@) {
        100
    } else {
        1
    }
}

/// The votes of the jar names for a loader.
pub open spec fn loader_tally(names: Seq<Seq<char>>, key: Seq<char>) -> int
    decreases names.len(),
{
    if names.len() == 0 {
        0
    } else {
        loader_tally(names.drop_last(), key) + if loader_hint(names.last()) == Some(key) {
            loader_weight(names.last())
        } else {
            0
        }
    }
}

/// The votes of the jar names for a Minecraft version.
pub open spec fn minecraft_tally(names: Seq<Seq<char>>, key: Seq<char>) -> int
    decreases names.len(),
{
    if names.len() == 0 {
        0
    } else {
        minecraft_tally(names.drop_last(), key) + if minecraft_version_hint(names.last()) == Some(
            key,
        ) {
            1int
        } else {
            0
        }
    }
}

proof fn lemma_tallies_bounded(names: Seq<Seq<char>>, key: Seq<char>)
    ensures
        0 <= loader_tally(names, key) <= 100 * names.len(),
        0 <= minecraft_tally(names, key) <= names.len(),
    decreases names.len(),
{
    if names.len() > 0 {
        lemma_tallies_bounded(names.drop_last(), key);
    }
}

/// The votes of a mods folder's jars: for loaders and for Minecraft versions.
/// Counts are `u32` and a jar's loader vote weighs up to 100, so the folder
/// holds at most `u32::MAX / 100` jars.
pub fn tally_votes(names: &Vec<String>) -> (r: (Vec<(String, u32)>, Vec<(String, u32)>))
    requires
        names@.len() * 100 <= u32::MAX,
    ensures
        keys_distinct(vote_views(r.0@)),
        keys_distinct(vote_views(r.1@)),
        forall|k: Seq<char>| votes_for(vote_views(r.0@), k) == loader_tally(string_views(names@), k),
        forall|k: Seq<char>| votes_for(vote_views(r.1@), k) == minecraft_tally(string_views(names@), k),
{
    let ghost nv = string_views(names@);
    let mut loaders: Vec<(String, u32)> = Vec::new();
    let mut versions: Vec<(String, u32)> = Vec::new();
    let mut i: usize = 0;
    assert(nv.take(0) =~= Seq::<Seq<char>>::empty());
    while i < names.len()
        invariant
            i <= names@.len(),
            names@.len() * 100 <= u32::MAX,
            nv == string_views(names@),
            keys_distinct(vote_views(loaders@)),
            keys_distinct(vote_views(versions@)),
            forall|k: Seq<char>| votes_for(vote_views(loaders@), k) == loader_tally(nv.take(i as int), k),
            forall|k: Seq<char>| votes_for(vote_views(versions@), k) == minecraft_tally(nv.take(i as int), k),
        decreases names@.len() - i,
    {
        assert(nv.take(i + 1).drop_last() =~= nv.take(i as int));
        assert(nv.take(i + 1).last() == names@[i as int]@);
        let name = names[i].as_str();
        proof {
            assert forall|k: Seq<char>| votes_for(vote_views(loaders@), k) + 100 <= 0xffff_ffff by {
                lemma_tallies_bounded(nv.take(i as int), k);
            }
            assert forall|k: Seq<char>| votes_for(vote_views(versions@), k) + 1 <= 0xffff_ffff by {
                lemma_tallies_bounded(nv.take(i as int), k);
            }
        }
        match loader_hint_from_filename(name) {
            Some(loader) => {
                let v = chars_of(name);
                let l = to_lower(&v);
                let w: u32 = if contains_str(&l, "-loader") {
                    100
                } else {
                    1
                };
                add_vote(&mut loaders, loader, w);
            },
            None => {},
        }
        match minecraft_version_hint_from_filename(name) {
            Some(version) => {
                add_vote(&mut versions, version, 1);
            },
            None => {},
        }
        i = i + 1;
    }
    assert(nv.take(names@.len() as int) =~= nv);
    (loaders, versions)
}

/// The target a mods folder's jars vote for: a Minecraft version needs three
/// votes, a loader one (at most `u32::MAX / 100` jars, see `tally_votes`).
pub fn target_from_votes(names: &Vec<String>) -> (r: InstanceTarget)
    requires
        names@.len() * 100 <= u32::MAX,
    ensures
        exists|l: Seq<(String, u32)>, m: Seq<(String, u32)>|
            {
                &&& forall|k: Seq<char>| votes_for(vote_views(l), k) == loader_tally(string_views(names@), k)
                &&& forall|k: Seq<char>| votes_for(vote_views(m), k) == minecraft_tally(
                    string_views(names@),
                    k,
                )
                &&& keys_distinct(vote_views(l))
                &&& keys_distinct(vote_views(m))
                &&& majority_pick(m, 3, opt_view(r.minecraft_version))
                &&& majority_pick(l, 1, opt_view(r.loader))
            },
{
    let (loaders, versions) = tally_votes(names);
    let mc = pick_majority(&versions, 3);
    let loader = pick_majority(&loaders, 1);
    let r = InstanceTarget { minecraft_version: mc, loader };
    assert(majority_pick(versions@, 3, opt_view(r.minecraft_version)));
    assert(majority_pick(loaders@, 1, opt_view(r.loader)));
    r
}

/// `pick` is what `pick_majority` gives for the votes.
pub open spec fn majority_pick(votes: Seq<(String, u32)>, min_votes: u32, pick: Option<Seq<char>>) -> bool {
    &&& votes.len() == 0 ==> pick is None
    &&& votes.len() > 0 ==> exists|i: int|
        0 <= i < votes.len() && (forall|j: int|
            0 <= j < votes.len() ==> !vote_above(#[trigger] vote_views(votes)[j], vote_views(votes)[i]))
            && (if votes[i].1 >= min_votes {
            pick == Some(votes[i].0@)
        } else {
            pick is None
        })
}

pub open spec fn target_view(t: InstanceTarget) -> (Option<Seq<char>>, Option<Seq<char>>) {
    (opt_view(t.minecraft_version), opt_view(t.loader))
}

pub open spec fn merged(a: (Option<Seq<char>>, Option<Seq<char>>), b: (Option<Seq<char>>, Option<Seq<char>>)) -> (Option<Seq<char>>, Option<Seq<char>>) {
    (
        match a.0 {
            Some(x) => Some(x),
            None => b.0,
        },
        match a.1 {
            Some(x) => Some(x),
            None => b.1,
        },
    )
}

/// The targets of the mods folders merged in order.
pub open spec fn merged_all(ts: Seq<InstanceTarget>) -> (Option<Seq<char>>, Option<Seq<char>>)
    decreases ts.len(),
{
    if ts.len() == 0 {
        (None, None)
    } else {
        merged(merged_all(ts.drop_last()), target_view(ts.last()))
    }
}

/// The instance's target from its sources, in order of trust: `mmc-pack.json`,
/// `instance.cfg`, the `versions` folder (for the Minecraft version), and the
/// votes of the mods folders (for what is still unknown).
pub open spec fn combined_target(
    mmc: Option<InstanceTarget>,
    cfg: InstanceTarget,
    versions_dir: Option<Seq<char>>,
    folders: Seq<InstanceTarget>,
) -> (Option<Seq<char>>, Option<Seq<char>>) {
    let t0 = match mmc {
        Some(t) => target_view(t),
        None => (None, None),
    };
    let t1 = merged(t0, target_view(cfg));
    let t2 = if t1.0 is None {
        (versions_dir, t1.1)
    } else {
        t1
    };
    if t2.0 is None || t2.1 is None {
        merged(t2, merged_all(folders))
    } else {
        t2
    }
}

pub fn combine_targets(
    mmc: Option<InstanceTarget>,
    cfg: InstanceTarget,
    versions_dir: Option<String>,
    folders: Vec<InstanceTarget>,
) -> (r: InstanceTarget)
    ensures
        target_view(r) == combined_target(mmc, cfg, opt_view(versions_dir), folders@),
{
    let ghost fv = folders@;
    let n = folders.len();
    let mut t = match mmc {
        Some(t) => t,
        None => InstanceTarget { minecraft_version: None, loader: None },
    };
    merge_target(&mut t, cfg);
    if t.minecraft_version.is_none() {
        t.minecraft_version = versions_dir;
    }
    if t.minecraft_version.is_none() || t.loader.is_none() {
        let mut from_mods = InstanceTarget { minecraft_version: None, loader: None };
        let mut rest = folders;
        let mut i: usize = 0;
        assert(fv.take(0) =~= Seq::<InstanceTarget>::empty());
        while rest.len() > 0
            invariant
                i + rest@.len() == fv.len(),
                fv.len() == n,
                rest@ == fv.subrange(i as int, fv.len() as int),
                target_view(from_mods) == merged_all(fv.take(i as int)),
            decreases rest@.len(),
        {
            let f = rest.remove(0);
            assert(f == fv[i as int]);
            assert(fv.take(i + 1).drop_last() =~= fv.take(i as int));
            merge_target(&mut from_mods, f);
            i = i + 1;
            assert(rest@ =~= fv.subrange(i as int, fv.len() as int));
        }
        assert(fv.take(fv.len() as int) =~= fv);
        merge_target(&mut t, from_mods);
    }
    t
}

} // verus!
