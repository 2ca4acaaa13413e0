//! The application's settings, the recent instances, and where an
//! instance keeps its mods.
use vstd::prelude::*;
use crate::text::{chars_of, contains, eq_str, lemma_seq_lt_asymmetric, lemma_seq_lt_irreflexive, lemma_seq_lt_total, lemma_seq_lt_transitive, opt_view, seq_lt, str_lt, string_views};

verus! {

pub struct ServerSyncSettings {
    pub enabled: bool,
    pub ssh_host: String,
    pub server_mods_path: String,
    pub distribution_mods_path: String,
    pub delete_extra_remote_jars: bool,
    pub server_os: String,
    pub server_start_script: String,
    pub server_root_path: String,
}

impl Default for ServerSyncSettings {
    fn default() -> (r: Self)
        ensures
            !r.enabled,
            r.ssh_host@.len() == 0,
            r.server_mods_path@.len() == 0,
            r.distribution_mods_path@.len() == 0,
            !r.delete_extra_remote_jars,
            r.server_os@.len() == 0,
            r.server_start_script@.len() == 0,
            r.server_root_path@.len() == 0,
    {
        ServerSyncSettings {
            enabled: false,
            ssh_host: String::new(),
            server_mods_path: String::new(),
            distribution_mods_path: String::new(),
            delete_extra_remote_jars: false,
            server_os: String::new(),
            server_start_script: String::new(),
            server_root_path: String::new(),
        }
    }
}

pub struct Settings {
    pub instance_root: Option<String>,
    pub curseforge_api_key: String,
    pub auto_prefetch_covers: bool,
    pub auto_prefetch_dependencies: bool,
    pub auto_check_updates: bool,
    pub recent_instances: Vec<String>,
    pub server_sync: ServerSyncSettings,
}

impl Default for Settings {
    fn default() -> (r: Self)
        ensures
            r.instance_root is None,
            r.curseforge_api_key@.len() == 0,
            r.auto_prefetch_covers,
            r.auto_prefetch_dependencies,
            r.auto_check_updates,
            r.recent_instances@.len() == 0,
            !r.server_sync.enabled,
    {
        Settings {
            instance_root: None,
            curseforge_api_key: String::new(),
            auto_prefetch_covers: true,
            auto_prefetch_dependencies: true,
            auto_check_updates: true,
            recent_instances: Vec::new(),
            server_sync: ServerSyncSettings::default(),
        }
    }
}

/// The entries other than `root`, in order.
pub open spec fn others(recent: Seq<Seq<char>>, root: Seq<char>) -> Seq<Seq<char>> {
    recent.filter(differs_from(root))
}

pub open spec fn differs_from(root: Seq<char>) -> spec_fn(Seq<char>) -> bool {
    |x: Seq<char>| x != root
}

/// How many recent instances are remembered.
pub const RECENT_LIMIT: usize = 12;

/// The recent list after opening `root`: it first, the others after it in
/// their order, at most twelve.
pub open spec fn recent_after(recent: Seq<Seq<char>>, root: Seq<char>) -> Seq<Seq<char>> {
    let rest = others(recent, root);
    let all = seq![root] + rest;
    if all.len() > 12 {
        all.take(12)
    } else {
        all
    }
}

pub fn remember_instance(settings: &mut Settings, instance_root: &str)
    ensures
        string_views(final(settings).recent_instances@) == recent_after(
            string_views(old(settings).recent_instances@),
            instance_root@,
        ),
        final(settings).instance_root == old(settings).instance_root,
        final(settings).server_sync == old(settings).server_sync,
        final(settings).curseforge_api_key == old(settings).curseforge_api_key,
{
    let ghost rv = string_views(settings.recent_instances@);
    let rootv = chars_of(instance_root);
    let mut recent: Vec<String> = Vec::new();
    recent.push(instance_root.to_string());
    let mut i: usize = 0;
    proof {
        assert(string_views(recent@) =~= seq![instance_root@] + others(rv.take(0), instance_root@));
    }
    while i < settings.recent_instances.len() && recent.len() < RECENT_LIMIT
        invariant
            i <= settings.recent_instances@.len(),
            rv == string_views(settings.recent_instances@),
            rootv@ == instance_root@,
            1 <= recent@.len() <= 12,
            string_views(recent@) == seq![instance_root@] + others(rv.take(i as int), instance_root@),
        decreases settings.recent_instances@.len() - i,
    {
        proof {
            assert(rv.take(i + 1).drop_last() =~= rv.take(i as int));
            assert(rv.take(i + 1).last() == settings.recent_instances@[i as int]@);
            reveal(Seq::filter);
        }
        let item = &settings.recent_instances[i];
        if !eq_str(&rootv, item.as_str()) {
            let ghost before = recent@;
            recent.push(item.clone());
            assert(string_views(recent@) =~= string_views(before).push(item@));
        }
        i = i + 1;
    }
    proof {
        let all = seq![instance_root@] + others(rv, instance_root@);
        let cur = seq![instance_root@] + others(rv.take(i as int), instance_root@);
        lemma_filter_prefix(rv, i as int, instance_root@);
        if i < rv.len() {
            assert(recent@.len() == 12);
            assert(others(rv, instance_root@).take(11) =~= others(rv.take(i as int), instance_root@));
            assert(all.take(12) =~= cur);
        } else {
            assert(rv.take(i as int) =~= rv);
        }
    }
    settings.recent_instances = recent;
}

/// Filtering a prefix gives a prefix of the filtered sequence.
proof fn lemma_filter_prefix(s: Seq<Seq<char>>, i: int, root: Seq<char>)
    requires
        0 <= i <= s.len(),
    ensures
        others(s.take(i), root).len() <= others(s, root).len(),
        others(s, root).take(others(s.take(i), root).len() as int) == others(s.take(i), root),
    decreases s.len() - i,
{
    reveal(Seq::filter);
    if i < s.len() {
        lemma_filter_prefix(s, i + 1, root);
        assert(s.take(i + 1).drop_last() =~= s.take(i));
        let a = others(s.take(i), root);
        let b = others(s.take(i + 1), root);
        let f = others(s, root);
        if s[i] != root {
            assert(b =~= a.push(s[i]));
            assert(f.take(a.len() as int) =~= b.take(a.len() as int));
        } else {
            assert(b =~= a);
        }
    } else {
        assert(s.take(i) =~= s);
        assert(others(s, root).take(others(s, root).len() as int) =~= others(s, root));
    }
}

/// The recent list keeps the instance just opened first, once, and never
/// grows past twelve.
pub proof fn lemma_remember_first(recent: Seq<Seq<char>>, root: Seq<char>)
    ensures
        recent_after(recent, root).len() >= 1,
        recent_after(recent, root)[0] == root,
        recent_after(recent, root).len() <= 12,
        forall|i: int| 1 <= i < recent_after(recent, root).len() ==> #[trigger] recent_after(recent, root)[i] != root,
{
    let rest = others(recent, root);
    assert forall|i: int| 0 <= i < rest.len() implies #[trigger] rest[i] != root by {
        recent.lemma_filter_pred(differs_from(root), i);
    }
}

// ---------------------------------------------------------------------------
// Where the mods are
// ---------------------------------------------------------------------------

/// A jar found in an extra mods folder: its path and modification time.
pub struct JarCandidate {
    pub path: String,
    pub modified_ms: Option<u64>,
}

/// `a` wins over `b`: known newer, or equally new (or both unknown) with an
/// earlier path.
pub open spec fn candidate_wins(a: JarCandidate, b: JarCandidate) -> bool {
    match (b.modified_ms, a.modified_ms) {
        (None, None) => seq_lt(a.path@, b.path@),
        (None, Some(_)) => true,
        (Some(_), None) => false,
        (Some(l), Some(r)) => r > l || (r == l && seq_lt(a.path@, b.path@)),
    }
}

/// Among copies of a jar in extra mods folders, the newest (earliest path on
/// a tie); none without copies.
pub fn pick_newest_jar(candidates: &Vec<JarCandidate>) -> (r: Option<usize>)
    ensures
        candidates@.len() == 0 <==> r is None,
        r matches Some(i) ==> i < candidates@.len() && forall|j: int|
            0 <= j < candidates@.len() ==> !candidate_wins(#[trigger] candidates@[j], candidates@[i as int]),
{
    if candidates.len() == 0 {
        return None;
    }
    let mut best: usize = 0;
    let mut i: usize = 1;
    proof {
        lemma_seq_lt_irreflexive(candidates@[0].path@);
    }
    while i < candidates.len()
        invariant
            1 <= i <= candidates@.len(),
            best < i,
            forall|j: int| 0 <= j < i ==> !candidate_wins(#[trigger] candidates@[j], candidates@[best as int]),
        decreases candidates@.len() - i,
    {
        let b = &candidates[best];
        let c = &candidates[i];
        let wins = match (b.modified_ms, c.modified_ms) {
            (None, None) => str_lt(c.path.as_str(), b.path.as_str()),
            (None, Some(_)) => true,
            (Some(_), None) => false,
            (Some(l), Some(r)) => r > l || (r == l && str_lt(c.path.as_str(), b.path.as_str())),
        };
        if wins {
            proof {
                lemma_seq_lt_irreflexive(candidates@[i as int].path@);
                assert forall|j: int| 0 <= j < i + 1 implies !candidate_wins(#[trigger] candidates@[j], candidates@[i as int]) by {
                    if j < i {
                        let a = candidates@[j];
                        let bb = candidates@[best as int];
                        let x = candidates@[i as int];
                        if seq_lt(a.path@, x.path@) && seq_lt(x.path@, bb.path@) {
                            lemma_seq_lt_transitive(a.path@, x.path@, bb.path@);
                        }
                    }
                }
            }
            best = i;
        } else {
            proof {
                lemma_seq_lt_total(candidates@[i as int].path@, candidates@[best as int].path@);
                lemma_seq_lt_asymmetric(candidates@[i as int].path@, candidates@[best as int].path@);
            }
        }
        i = i + 1;
    }
    Some(best)
}

/// The extra mods folders in path order, with the selected modpack's folder
/// (where it is among them) moved to the front.
pub fn order_modpack_dirs(dirs: Vec<String>, selected: Option<String>) -> (r: Vec<String>)
    ensures
        ({
            let s = crate::file_identity::sorted_lines(string_views(dirs@));
            match opt_view(selected) {
                Some(sel) => match first_index(s, sel) {
                    Some(i) => string_views(r@) == seq![sel] + s.remove(i),
                    None => string_views(r@) == s,
                },
                None => string_views(r@) == s,
            }
        }),
{
    let ghost s = crate::file_identity::sorted_lines(string_views(dirs@));
    let mut out = crate::updates::sort_texts(dirs);
    proof {
        let p = string_views(out@);
        assert(crate::updates::text_sorted(p) && p.to_multiset() == string_views(dirs@).to_multiset());
        crate::file_identity::lemma_sorted_lines_unique(p, s);
    }
    match selected {
        None => out,
        Some(sel) => {
            let sv = chars_of(sel.as_str());
            let mut i: usize = 0;
            let ghost dv = string_views(out@);
            while i < out.len()
                invariant
                    i <= out@.len(),
                    dv == string_views(out@),
                    dv == s,
                    s == crate::file_identity::sorted_lines(string_views(dirs@)),
                    opt_view(selected) == Some(sel@),
                    sv@ == sel@,
                    forall|j: int| 0 <= j < i ==> dv[j] != sel@,
                decreases out@.len() - i,
            {
                if eq_str(&sv, out[i].as_str()) {
                    proof {
                        lemma_first_index(dv, sel@, i as int);
                    }
                    let d = out.remove(i);
                    out.insert(0, d);
                    assert(string_views(out@) =~= seq![sel@] + dv.remove(i as int));
                    return out;
                }
                i = i + 1;
            }
            proof {
                lemma_first_index_none(dv, sel@);
            }
            out
        },
    }
}

/// The first index of `x` in `s`.
pub open spec fn first_index(s: Seq<Seq<char>>, x: Seq<char>) -> Option<int>
    decreases s.len(),
{
    if s.len() == 0 {
        None
    } else if s[0] == x {
        Some(0)
    } else {
        match first_index(s.drop_first(), x) {
            Some(i) => Some(i + 1),
            None => None,
        }
    }
}

proof fn lemma_first_index(s: Seq<Seq<char>>, x: Seq<char>, i: int)
    requires
        0 <= i < s.len(),
        s[i] == x,
        forall|j: int| 0 <= j < i ==> s[j] != x,
    ensures
        first_index(s, x) == Some(i),
    decreases i,
{
    if i > 0 {
        lemma_first_index(s.drop_first(), x, i - 1);
    }
}

proof fn lemma_first_index_none(s: Seq<Seq<char>>, x: Seq<char>)
    requires
        forall|j: int| 0 <= j < s.len() ==> s[j] != x,
    ensures
        first_index(s, x) is None,
    decreases s.len(),
{
    if s.len() > 0 {
        lemma_first_index_none(s.drop_first(), x);
    }
}

/// The folder the user chose for the instance; an error until one is chosen.
pub fn selected_instance(settings: &Settings) -> (r: Result<String, String>)
    ensures
        match settings.instance_root {
            Some(root) => r matches Ok(x) && x@ == root@,
            None => r matches Err(e) && e@ == "Выбери папку сборки в настройках."@,
        },
{
    match &settings.instance_root {
        Some(root) => Ok(root.clone()),
        None => Err("Выбери папку сборки в настройках.".to_string()),
    }
}

/// Which folders of the chosen one exist, for finding the mods folder.
pub struct LayoutProbe {
    pub minecraft_mods: bool,
    pub automodpack_host_mods: bool,
    pub host_modpack_mods: bool,
    pub main_mods: bool,
    pub is_host_modpack: bool,
    pub mods: bool,
    pub is_mods: bool,
}

/// Where the mods are, from what exists in the chosen folder: its own
/// layout (instance root kept), its `mods` folder (the parent is the
/// instance), or the folder itself when it is `mods` (two levels up).
pub enum InstanceLayout {
    Minecraft,
    AutomodpackHost,
    HostModpack,
    HostModpackMain,
    ModsInside,
    ModsItself,
}

pub fn instance_layout(p: &LayoutProbe) -> (r: Result<InstanceLayout, String>)
    ensures
        p.minecraft_mods ==> r matches Ok(InstanceLayout::Minecraft),
        !p.minecraft_mods && p.automodpack_host_mods ==> r matches Ok(InstanceLayout::AutomodpackHost),
        !p.minecraft_mods && !p.automodpack_host_mods && p.host_modpack_mods ==> r matches Ok(
            InstanceLayout::HostModpack,
        ),
        !p.minecraft_mods && !p.automodpack_host_mods && !p.host_modpack_mods && p.main_mods
            && p.is_host_modpack ==> r matches Ok(InstanceLayout::HostModpackMain),
        !p.minecraft_mods && !p.automodpack_host_mods && !p.host_modpack_mods && !(p.main_mods
            && p.is_host_modpack) && p.mods ==> r matches Ok(InstanceLayout::ModsInside),
        !p.minecraft_mods && !p.automodpack_host_mods && !p.host_modpack_mods && !(p.main_mods
            && p.is_host_modpack) && !p.mods && p.is_mods ==> r matches Ok(InstanceLayout::ModsItself),
        !p.minecraft_mods && !p.automodpack_host_mods && !p.host_modpack_mods && !(p.main_mods
            && p.is_host_modpack) && !p.mods && !p.is_mods ==> (r matches Err(e) && e@
            == "В выбранной папке не нашлась minecraft/mods."@),
{
    if p.minecraft_mods {
        Ok(InstanceLayout::Minecraft)
    } else if p.automodpack_host_mods {
        Ok(InstanceLayout::AutomodpackHost)
    } else if p.host_modpack_mods {
        Ok(InstanceLayout::HostModpack)
    } else if p.main_mods && p.is_host_modpack {
        Ok(InstanceLayout::HostModpackMain)
    } else if p.mods {
        Ok(InstanceLayout::ModsInside)
    } else if p.is_mods {
        Ok(InstanceLayout::ModsItself)
    } else {
        Err("В выбранной папке не нашлась minecraft/mods.".to_string())
    }
}

} // verus!
