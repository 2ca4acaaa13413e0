//! Updating the mod loader (NeoForge, or Fabric for its catalog) of the
//! client instance and of the remote server: what to check, what to report,
//! and what to install.
use vstd::prelude::*;
use vstd::string::StringExecFns;
use crate::text::{chars_of, contains, ends_with, ends_with_str, eq_str, join, join_strings, lower, opt_view, replace_char, replace_char_chars, slice_chars, starts_with, string_of, string_views, strip_prefix_chars, to_lower, trim, trim_end_char, trim_end_char_chars, trim_string, trimmed};
use crate::neoforge::{newest_first, version_order, version_sign, versions_newest_first};

verus! {

/// A host name as typed: trimmed, lower-case; blank means none.
pub open spec fn cleaned_host(value: Seq<char>) -> Option<Seq<char>> {
    if trim(value).len() == 0 {
        None
    } else {
        Some(lower(trim(value)))
    }
}

pub fn clean_host(value: &str) -> (r: Option<String>)
    ensures
        opt_view(r) == cleaned_host(value@),
{
    let t = trimmed(value);
    if t.len() == 0 {
        None
    } else {
        let l = to_lower(&t);
        Some(string_of(&l))
    }
}

/// The SSH host to use: the one given for this call, else the configured one.
pub open spec fn ssh_host_of(override_host: Option<Seq<char>>, configured: Seq<char>) -> Option<Seq<char>> {
    match override_host {
        Some(h) => match cleaned_host(h) {
            Some(c) => Some(c),
            None => cleaned_host(configured),
        },
        None => cleaned_host(configured),
    }
}

pub fn resolve_ssh_host(override_host: Option<&str>, configured: &str) -> (r: Option<String>)
    ensures
        opt_view(r) == ssh_host_of(
            match override_host {
                Some(h) => Some(h@),
                None => None,
            },
            configured@,
        ),
{
    match override_host {
        Some(h) => match clean_host(h) {
            Some(c) => Some(c),
            None => clean_host(configured),
        },
        None => clean_host(configured),
    }
}

pub open spec fn loader_label_of(loader: Seq<char>) -> Seq<char> {
    if loader == "fabric"@ {
        "Fabric"@
    } else {
        "NeoForge"@
    }
}

pub fn loader_label(loader: &str) -> (r: String)
    ensures
        r@ == loader_label_of(loader@),
{
    let v = chars_of(loader);
    if eq_str(&v, "fabric") {
        "Fabric".to_string()
    } else {
        "NeoForge".to_string()
    }
}

/// The target must be one of the versions offered.
pub fn validate_target_version(target: &str, available: &[String]) -> (r: Result<(), String>)
    ensures
        r is Ok <==> string_views(available@).contains(target@),
        r matches Err(e) ==> e@ == "Версия "@ + target@ + " недоступна для этого Minecraft."@,
{
    let tv = chars_of(target);
    let mut i: usize = 0;
    while i < available.len()
        invariant
            i <= available@.len(),
            tv@ == target@,
            forall|j: int| 0 <= j < i ==> string_views(available@)[j] != target@,
        decreases available@.len() - i,
    {
        if eq_str(&tv, available[i].as_str()) {
            assert(string_views(available@)[i as int] == target@);
            return Ok(());
        }
        i = i + 1;
    }
    let mut m = "Версия ".to_string();
    m.append(target);
    m.append(" недоступна для этого Minecraft.");
    Err(m)
}

/// The server's root, from the path of its mods folder: `/` separators,
/// without trailing ones and without the last `/mods`.
pub open spec fn server_root_of(mods_path: Seq<char>) -> Option<Seq<char>> {
    let path = trim_end_char(replace_char(trim(mods_path), '\\', "/"@), '/');
    if path.len() == 0 {
        None
    } else {
        let cut = if ends_with(lower(path), "/mods"@) {
            trim_end_char(path.subrange(0, path.len() - 5), '/')
        } else {
            path
        };
        if cut.len() == 0 {
            None
        } else {
            Some(cut)
        }
    }
}

pub fn server_root_from_mods_path(server_mods_path: &str) -> (r: Option<String>)
    ensures
        opt_view(r) == server_root_of(server_mods_path@),
{
    let t = trimmed(server_mods_path);
    let slash = chars_of("/");
    let replaced = replace_char_chars(&t, '\\', &slash);
    let path = trim_end_char_chars(&replaced, '/');
    if path.len() == 0 {
        return None;
    }
    let l = to_lower(&path);
    let cut = if ends_with_str(&l, "/mods") {
        proof {
            reveal_strlit("/mods");
            assert(lower(path@).len() == path@.len());
        }
        let head = slice_chars(&path, 0, path.len() - 5);
        trim_end_char_chars(&head, '/')
    } else {
        path
    };
    if cut.len() == 0 {
        None
    } else {
        Some(string_of(&cut))
    }
}

/// A version is out of date when older than the latest, or unknown.
pub open spec fn needs_update_of(current: Option<Seq<char>>, latest: Seq<char>) -> bool {
    match current {
        Some(c) => version_order(c, latest) < 0,
        None => true,
    }
}

pub fn needs_update(current: Option<&str>, latest: &str) -> (r: bool)
    ensures
        r == needs_update_of(
            match current {
                Some(c) => Some(c@),
                None => None,
            },
            latest@,
        ),
{
    match current {
        Some(c) => version_sign(c, latest) < 0,
        None => true,
    }
}

// ---------------------------------------------------------------------------
// The client's loader, from mmc-pack.json
// ---------------------------------------------------------------------------

pub struct ClientLoaderInfo {
    pub minecraft_version: Option<String>,
    pub loader: String,
    pub loader_version: Option<String>,
}

/// A component's version, trimmed; blank means none.
pub open spec fn component_version(v: Option<Seq<char>>) -> Option<Seq<char>> {
    match v {
        Some(s) => if trim(s).len() == 0 {
            None
        } else {
            Some(trim(s))
        },
        None => None,
    }
}

/// What the components of `mmc-pack.json` (uid and version) say: the
/// Minecraft version, and the loader with its version; a later component
/// replaces an earlier one.
pub open spec fn loader_fold(components: Seq<(Seq<char>, Option<Seq<char>>)>) -> (Option<Seq<char>>, Seq<char>, Option<Seq<char>>)
    decreases components.len(),
{
    if components.len() == 0 {
        (None, Seq::<char>::empty(), None)
    } else {
        let prev = loader_fold(components.drop_last());
        let (uid, version) = components.last();
        let v = component_version(version);
        if uid == "net.minecraft"@ {
            (v, prev.1, prev.2)
        } else if uid == "net.neoforged"@ {
            (prev.0, "neoforge"@, v)
        } else if uid == "net.fabricmc.fabric-loader"@ {
            (prev.0, "fabric"@, v)
        } else {
            prev
        }
    }
}

/// The uids of the loader components a client update looks at.
pub open spec fn client_loader_uid(uid: Seq<char>) -> bool {
    uid == "net.neoforged"@ || uid == "net.fabricmc.fabric-loader"@
}

/// The client's loader is named by its last NeoForge or Fabric component:
/// `net.neoforged` is `neoforge`, `net.fabricmc.fabric-loader` is `fabric`,
/// and the loader's version is that component's version, trimmed (none when
/// blank).
pub proof fn lemma_last_client_loader_component(components: Seq<(Seq<char>, Option<Seq<char>>)>, i: int)
    requires
        0 <= i < components.len(),
        client_loader_uid(components[i].0),
        forall|j: int| i < j < components.len() ==> !client_loader_uid(#[trigger] components[j].0),
    ensures
        loader_fold(components).1 == (if components[i].0 == "net.neoforged"@ {
            "neoforge"@
        } else {
            "fabric"@
        }),
        loader_fold(components).2 == component_version(components[i].1),
    decreases components.len(),
{
    reveal_strlit("net.minecraft");
    reveal_strlit("net.neoforged");
    reveal_strlit("net.fabricmc.fabric-loader");
    assert("net.minecraft"@[4] != "net.neoforged"@[4]);
    assert("net.minecraft"@.len() != "net.fabricmc.fabric-loader"@.len());
    let n = components.len() - 1;
    let prev = components.drop_last();
    assert(components.last() == components[n]);
    if i < n {
        assert forall|j: int| i < j < prev.len() implies !client_loader_uid(#[trigger] prev[j].0) by {
            assert(prev[j] == components[j]);
        }
        assert(prev[i] == components[i]);
        lemma_last_client_loader_component(prev, i);
    }
}

pub open spec fn component_views(c: Seq<(String, Option<String>)>) -> Seq<(Seq<char>, Option<Seq<char>>)> {
    c.map_values(|p: (String, Option<String>)| (p.0@, opt_view(p.1)))
}

fn trimmed_version(v: &Option<String>) -> (r: Option<String>)
    ensures
        opt_view(r) == component_version(opt_view(*v)),
{
    match v {
        Some(s) => {
            let t = trim_string(s.as_str());
            if t.as_str().is_empty() {
                None
            } else {
                Some(t)
            }
        },
        None => None,
    }
}

pub fn client_info_from_components(components: &Vec<(String, Option<String>)>) -> (r: ClientLoaderInfo)
    ensures
        (opt_view(r.minecraft_version), r.loader@, opt_view(r.loader_version)) == loader_fold(
            component_views(components@),
        ),
{
    let ghost cv = component_views(components@);
    let mut info = ClientLoaderInfo { minecraft_version: None, loader: String::new(), loader_version: None };
    let mut i: usize = 0;
    assert(cv.take(0) =~= Seq::<(Seq<char>, Option<Seq<char>>)>::empty());
    while i < components.len()
        invariant
            i <= components@.len(),
            cv == component_views(components@),
            (opt_view(info.minecraft_version), info.loader@, opt_view(info.loader_version))
                == loader_fold(cv.take(i as int)),
        decreases components@.len() - i,
    {
        assert(cv.take(i + 1).drop_last() =~= cv.take(i as int));
        assert(cv.take(i + 1).last() == (components@[i as int].0@, opt_view(components@[i as int].1)));
        let uid = chars_of(components[i].0.as_str());
        let v = trimmed_version(&components[i].1);
        if eq_str(&uid, "net.minecraft") {
            info.minecraft_version = v;
        } else if eq_str(&uid, "net.neoforged") {
            info.loader = "neoforge".to_string();
            info.loader_version = v;
        } else if eq_str(&uid, "net.fabricmc.fabric-loader") {
            info.loader = "fabric".to_string();
            info.loader_version = v;
        }
        i = i + 1;
    }
    assert(cv.take(components@.len() as int) =~= cv);
    info
}

/// What an `mmc-pack.json` text says of the client (see
/// `client_info_from_components`); nothing where it lists no components.
pub fn client_info_from_mmc_pack(text: &str) -> (r: ClientLoaderInfo)
    ensures
        (opt_view(r.minecraft_version), r.loader@, opt_view(r.loader_version)) == match crate::pack_index::json_components(
            text@,
        ) {
            None => (None, Seq::<char>::empty(), None),
            Some(c) => loader_fold(crate::pack_index::uid_or_blank(c)),
        },
{
    match crate::pack_index::mmc_pack_components(text) {
        Some(components) => {
            proof {
                assert(component_views(components@) == crate::instance_meta::component_views(components@));
            }
            client_info_from_components(&components)
        },
        None => ClientLoaderInfo { minecraft_version: None, loader: String::new(), loader_version: None },
    }
}

// ---------------------------------------------------------------------------
// Checking
// ---------------------------------------------------------------------------

pub struct NeoForgeCheckResult {
    pub ok: bool,
    pub minecraft_version: Option<String>,
    pub client_version: Option<String>,
    pub server_version: Option<String>,
    pub latest_version: Option<String>,
    pub available_versions: Vec<String>,
    pub client_needs_update: bool,
    pub server_needs_update: bool,
    pub client_server_match: bool,
    pub libraries_root: Option<String>,
    pub server_root: Option<String>,
    pub message: String,
    pub warnings: Vec<String>,
}

impl NeoForgeCheckResult {
    /// The result of a check that could not start.
    pub fn failed(message: String) -> (r: Self)
        ensures
            !r.ok,
            r.message@ == message@,
            r.minecraft_version is None,
            r.client_version is None,
            r.server_version is None,
            r.latest_version is None,
            r.available_versions@.len() == 0,
            !r.client_needs_update,
            !r.server_needs_update,
            !r.client_server_match,
            r.libraries_root is None,
            r.server_root is None,
            r.warnings@.len() == 0,
    {
        NeoForgeCheckResult {
            ok: false,
            minecraft_version: None,
            client_version: None,
            server_version: None,
            latest_version: None,
            available_versions: Vec::new(),
            client_needs_update: false,
            server_needs_update: false,
            client_server_match: false,
            libraries_root: None,
            server_root: None,
            message,
            warnings: Vec::new(),
        }
    }
}

/// The loader to look for: the detected one, NeoForge when none was found.
pub open spec fn effective_loader(loader: Seq<char>) -> Seq<char> {
    if loader.len() == 0 {
        "neoforge"@
    } else {
        loader
    }
}

/// The warnings of a check: what was not found, then what went wrong on the
/// server and with the catalog.
pub open spec fn check_warnings(
    info_mc: Option<Seq<char>>,
    info_loader: Seq<char>,
    client_version: Option<Seq<char>>,
    server_root: Option<Seq<char>>,
    ssh_host: Option<Seq<char>>,
    server_probe: Option<Result<Option<Seq<char>>, Seq<char>>>,
    catalog: Option<Result<(Seq<char>, Seq<Seq<char>>), Seq<char>>>,
) -> Seq<Seq<char>> {
    let w1 = if info_mc is None {
        seq!["Не найдена версия Minecraft в mmc-pack.json."@]
    } else {
        Seq::<Seq<char>>::empty()
    };
    let w2 = if client_version is None {
        seq!["Не найден "@ + loader_label_of(effective_loader(info_loader)) + " в mmc-pack.json."@]
    } else {
        Seq::<Seq<char>>::empty()
    };
    let w3 = if ssh_host is Some && server_root is Some {
        match server_probe {
            Some(Err(e)) => seq!["Сервер: "@ + e],
            _ => Seq::<Seq<char>>::empty(),
        }
    } else if server_root is Some {
        seq!["Укажите SSH host для проверки сервера."@]
    } else {
        Seq::<Seq<char>>::empty()
    };
    let w4 = if info_mc is Some {
        match catalog {
            Some(Err(e)) => seq![e],
            _ => Seq::<Seq<char>>::empty(),
        }
    } else {
        Seq::<Seq<char>>::empty()
    };
    w1 + w2 + w3 + w4
}

/// The summary line of a check.
pub open spec fn check_message(
    loader: Seq<char>,
    latest: Option<Seq<char>>,
    client_old: bool,
    server_old: bool,
    versions_match: bool,
    client_version: Option<Seq<char>>,
    server_version: Option<Seq<char>>,
) -> Seq<char> {
    let p1 = match latest {
        Some(l) => seq!["Актуально: "@ + l],
        None => Seq::<Seq<char>>::empty(),
    };
    let p2 = if client_old {
        seq!["Клиент устарел."@]
    } else {
        Seq::<Seq<char>>::empty()
    };
    let p3 = if server_old {
        seq!["Сервер устарел."@]
    } else {
        Seq::<Seq<char>>::empty()
    };
    let p4 = if !client_old && !server_old && latest is Some {
        seq![loader_label_of(loader) + " актуален."@]
    } else {
        Seq::<Seq<char>>::empty()
    };
    let p5 = if !versions_match && client_version is Some && server_version is Some {
        seq!["Версии клиента и сервера различаются."@]
    } else {
        Seq::<Seq<char>>::empty()
    };
    let parts = p1 + p2 + p3 + p4 + p5;
    if parts.len() == 0 {
        "Проверка "@ + loader_label_of(loader) + "."@
    } else {
        join(parts, " "@)
    }
}

fn push_str(v: &mut Vec<String>, s: String)
    ensures
        string_views(final(v)@) == string_views(old(v)@).push(s@),
{
    let ghost before = v@;
    v.push(s);
    assert(string_views(v@) =~= string_views(before).push(s@));
}

fn opt_str(o: &Option<String>) -> (r: Option<&str>)
    ensures
        match r {
            Some(s) => opt_view(*o) == Some(s@),
            None => o is None,
        },
{
    match o {
        Some(s) => Some(s.as_str()),
        None => None,
    }
}

fn opt_eq(a: &Option<String>, b: &Option<String>) -> (r: bool)
    ensures
        r == match (opt_view(*a), opt_view(*b)) {
            (Some(x), Some(y)) => x == y,
            _ => false,
        },
{
    match (a, b) {
        (Some(x), Some(y)) => {
            let xv = chars_of(x.as_str());
            eq_str(&xv, y.as_str())
        },
        _ => false,
    }
}

fn copy_strings(v: &Vec<String>) -> (r: Vec<String>)
    ensures
        string_views(r@) == string_views(v@),
{
    let mut r: Vec<String> = Vec::new();
    let mut i: usize = 0;
    while i < v.len()
        invariant
            i <= v@.len(),
            string_views(r@) == string_views(v@).take(i as int),
        decreases v@.len() - i,
    {
        push_str(&mut r, v[i].clone());
        assert(string_views(v@).take(i + 1) =~= string_views(v@).take(i as int).push(v@[i as int]@));
        i = i + 1;
    }
    assert(string_views(v@).take(v@.len() as int) =~= string_views(v@));
    r
}

pub open spec fn probe_view(p: Option<Result<Option<String>, String>>) -> Option<Result<Option<Seq<char>>, Seq<char>>> {
    match p {
        Some(Ok(v)) => Some(Ok(opt_view(v))),
        Some(Err(e)) => Some(Err(e@)),
        None => None,
    }
}

pub open spec fn catalog_view(c: Option<Result<(String, Vec<String>), String>>) -> Option<Result<(Seq<char>, Seq<Seq<char>>), Seq<char>>> {
    match c {
        Some(Ok((l, vs))) => Some(Ok((l@, string_views(vs@)))),
        Some(Err(e)) => Some(Err(e@)),
        None => None,
    }
}

/// The report of a check, from what was found: the client's loader, the
/// libraries folder, the server's root and SSH host, the server's version
/// (asked only with both) and the catalog (fetched only with a Minecraft
/// version).
#[verifier::spinoff_prover]
#[verifier::rlimit(40)]
pub fn check_report(
    info: ClientLoaderInfo,
    libraries_root: String,
    server_root: Option<String>,
    ssh_host: Option<String>,
    server_probe: Option<Result<Option<String>, String>>,
    catalog: Option<Result<(String, Vec<String>), String>>,
) -> (r: NeoForgeCheckResult)
    ensures
        ({
            let mc = opt_view(info.minecraft_version);
            let server_version = if ssh_host is Some && server_root is Some {
                match probe_view(server_probe) {
                    Some(Ok(v)) => v,
                    _ => None,
                }
            } else {
                None
            };
            let latest = if mc is Some {
                match catalog_view(catalog) {
                    Some(Ok((l, _))) => Some(l),
                    _ => None,
                }
            } else {
                None
            };
            let client_old = latest is Some && needs_update_of(opt_view(info.loader_version), latest->0);
            let server_old = latest is Some && needs_update_of(server_version, latest->0);
            let versions_match = match (opt_view(info.loader_version), server_version) {
                (Some(a), Some(b)) => a == b,
                _ => false,
            };
            &&& r.ok == (mc is Some && latest is Some)
            &&& opt_view(r.minecraft_version) == mc
            &&& opt_view(r.client_version) == opt_view(info.loader_version)
            &&& opt_view(r.server_version) == server_version
            &&& opt_view(r.latest_version) == latest
            &&& string_views(r.available_versions@) == if mc is Some {
                match catalog_view(catalog) {
                    Some(Ok((_, vs))) => vs,
                    _ => Seq::<Seq<char>>::empty(),
                }
            } else {
                Seq::<Seq<char>>::empty()
            }
            &&& r.client_needs_update == client_old
            &&& r.server_needs_update == server_old
            &&& r.client_server_match == versions_match
            &&& opt_view(r.libraries_root) == Some(libraries_root@)
            &&& opt_view(r.server_root) == opt_view(server_root)
            &&& r.message@ == check_message(
                effective_loader(info.loader@),
                latest,
                client_old,
                server_old,
                versions_match,
                opt_view(info.loader_version),
                server_version,
            )
            &&& string_views(r.warnings@) == check_warnings(
                mc,
                info.loader@,
                opt_view(info.loader_version),
                opt_view(server_root),
                opt_view(ssh_host),
                probe_view(server_probe),
                catalog_view(catalog),
            )
        }),
{
    let mut warnings: Vec<String> = Vec::new();
    if info.minecraft_version.is_none() {
        push_str(&mut warnings, "Не найдена версия Minecraft в mmc-pack.json.".to_string());
    }
    let loader = if info.loader.as_str().is_empty() {
        "neoforge".to_string()
    } else {
        info.loader.clone()
    };
    if info.loader_version.is_none() {
        let mut m = "Не найден ".to_string();
        m.append(loader_label(loader.as_str()).as_str());
        m.append(" в mmc-pack.json.");
        push_str(&mut warnings, m);
    }
    let mut server_version: Option<String> = None;
    if ssh_host.is_some() && server_root.is_some() {
        match server_probe {
            Some(Ok(v)) => {
                server_version = v;
            },
            Some(Err(e)) => {
                let mut m = "Сервер: ".to_string();
                m.append(e.as_str());
                push_str(&mut warnings, m);
            },
            None => {},
        }
    } else if server_root.is_some() {
        push_str(&mut warnings, "Укажите SSH host для проверки сервера.".to_string());
    }
    let mut latest_version: Option<String> = None;
    let mut available_versions: Vec<String> = Vec::new();
    if info.minecraft_version.is_some() {
        match catalog {
            Some(Ok((latest, versions))) => {
                latest_version = Some(latest);
                available_versions = versions;
            },
            Some(Err(e)) => {
                push_str(&mut warnings, e);
            },
            None => {},
        }
    }
    proof {
        let w = string_views(warnings@);
        assert(w =~= check_warnings(
            opt_view(info.minecraft_version),
            info.loader@,
            opt_view(info.loader_version),
            opt_view(server_root),
            opt_view(ssh_host),
            probe_view(server_probe),
            catalog_view(catalog),
        ));
    }
    let client_needs_update = match opt_str(&latest_version) {
        Some(l) => needs_update(opt_str(&info.loader_version), l),
        None => false,
    };
    let server_needs_update = match opt_str(&latest_version) {
        Some(l) => needs_update(opt_str(&server_version), l),
        None => false,
    };
    let client_server_match = opt_eq(&info.loader_version, &server_version);
    let mut parts: Vec<String> = Vec::new();
    match opt_str(&latest_version) {
        Some(l) => {
            let mut m = "Актуально: ".to_string();
            m.append(l);
            push_str(&mut parts, m);
        },
        None => {},
    }
    if client_needs_update {
        push_str(&mut parts, "Клиент устарел.".to_string());
    }
    if server_needs_update {
        push_str(&mut parts, "Сервер устарел.".to_string());
    }
    if !client_needs_update && !server_needs_update && latest_version.is_some() {
        let mut m = loader_label(loader.as_str());
        m.append(" актуален.");
        push_str(&mut parts, m);
    }
    if !client_server_match && info.loader_version.is_some() && server_version.is_some() {
        push_str(&mut parts, "Версии клиента и сервера различаются.".to_string());
    }
    let message = if parts.len() == 0 {
        let mut m = "Проверка ".to_string();
        m.append(loader_label(loader.as_str()).as_str());
        m.append(".");
        m
    } else {
        join_strings(&parts, " ")
    };
    proof {
        let mc = opt_view(info.minecraft_version);
        let latest = opt_view(latest_version);
        let ps = string_views(parts@);
        assert(ps =~= {
            let p1 = match latest {
                Some(l) => seq!["Актуально: "@ + l],
                None => Seq::<Seq<char>>::empty(),
            };
            let p2 = if client_needs_update {
                seq!["Клиент устарел."@]
            } else {
                Seq::<Seq<char>>::empty()
            };
            let p3 = if server_needs_update {
                seq!["Сервер устарел."@]
            } else {
                Seq::<Seq<char>>::empty()
            };
            let p4 = if !client_needs_update && !server_needs_update && latest is Some {
                seq![loader_label_of(effective_loader(info.loader@)) + " актуален."@]
            } else {
                Seq::<Seq<char>>::empty()
            };
            let p5 = if !client_server_match && opt_view(info.loader_version) is Some && opt_view(
                server_version,
            ) is Some {
                seq!["Версии клиента и сервера различаются."@]
            } else {
                Seq::<Seq<char>>::empty()
            };
            p1 + p2 + p3 + p4 + p5
        });
    }
    NeoForgeCheckResult {
        ok: info.minecraft_version.is_some() && latest_version.is_some(),
        minecraft_version: info.minecraft_version,
        client_version: info.loader_version,
        server_version,
        latest_version,
        available_versions,
        client_needs_update,
        server_needs_update,
        client_server_match,
        libraries_root: Some(libraries_root),
        server_root,
        message,
        warnings,
    }
}

// ---------------------------------------------------------------------------
// Applying an update
// ---------------------------------------------------------------------------

/// Something to update must be chosen, and Fabric is not updated.
pub fn apply_preconditions(update_client: bool, update_server: bool, loader: &str) -> (r: Result<(), String>)
    ensures
        !update_client && !update_server ==> (r matches Err(e) && e@ == "Выберите клиент и/или сервер."@),
        (update_client || update_server) && loader@ == "fabric"@ ==> (r matches Err(e) && e@
            == "Обновление Fabric пока не поддерживается — доступен только каталог версий."@),
        (update_client || update_server) && loader@ != "fabric"@ ==> r is Ok,
{
    if !update_client && !update_server {
        return Err("Выберите клиент и/или сервер.".to_string());
    }
    let v = chars_of(loader);
    if eq_str(&v, "fabric") {
        return Err("Обновление Fabric пока не поддерживается — доступен только каталог версий.".to_string());
    }
    Ok(())
}

/// The version to install: the one asked for (trimmed, when not blank), else
/// the latest.
pub open spec fn target_version_of(requested: Option<Seq<char>>, latest: Option<Seq<char>>) -> Option<Seq<char>> {
    match requested {
        Some(t) if trim(t).len() > 0 => Some(trim(t)),
        _ => latest,
    }
}

pub fn target_version_for(requested: Option<&str>, latest: &Option<String>) -> (r: Result<String, String>)
    ensures
        match target_version_of(
            match requested {
                Some(t) => Some(t@),
                None => None,
            },
            opt_view(*latest),
        ) {
            Some(t) => r matches Ok(v) && v@ == t,
            None => r matches Err(e) && e@ == "Не удалось определить целевую версию."@,
        },
{
    match requested {
        Some(t) => {
            let tv = trim_string(t);
            if !tv.as_str().is_empty() {
                return Ok(tv);
            }
        },
        None => {},
    }
    match latest {
        Some(l) => Ok(l.clone()),
        None => Err("Не удалось определить целевую версию.".to_string()),
    }
}

/// The notes on a client update: the jars fetched, then the installers
/// removed (listed with a `removed:` prefix among the files).
pub open spec fn client_notes(target: Seq<char>, files: Seq<Seq<char>>) -> Seq<Seq<char>> {
    let removed = files.filter(|f: Seq<char>| starts_with(f, "removed:"@)).map_values(
        |f: Seq<char>| f.subrange(8, f.len() as int),
    );
    let jars = files.filter(|f: Seq<char>| !starts_with(f, "removed:"@));
    seq!["Клиент: mmc-pack → "@ + target + ", jar: "@ + join(jars, ", "@)] + if removed.len() > 0 {
        seq!["Удалены installer (клиент): "@ + join(removed, ", "@)]
    } else {
        Seq::<Seq<char>>::empty()
    }
}

pub fn client_update_notes(target: &str, files: &Vec<String>) -> (r: Vec<String>)
    ensures
        string_views(r@) == client_notes(target@, string_views(files@)),
{
    let ghost fv = string_views(files@);
    let mut removed: Vec<String> = Vec::new();
    let mut jars: Vec<String> = Vec::new();
    let mut i: usize = 0;
    proof {
        reveal_strlit("removed:");
        assert(fv.take(0) =~= Seq::<Seq<char>>::empty());
    }
    while i < files.len()
        invariant
            i <= files@.len(),
            fv == string_views(files@),
            "removed:"@.len() == 8,
            string_views(removed@) == fv.take(i as int).filter(
                |f: Seq<char>| starts_with(f, "removed:"@),
            ).map_values(|f: Seq<char>| f.subrange(8, f.len() as int)),
            string_views(jars@) == fv.take(i as int).filter(
                |f: Seq<char>| !starts_with(f, "removed:"@),
            ),
        decreases files@.len() - i,
    {
        proof {
            assert(fv.take(i + 1).drop_last() =~= fv.take(i as int));
            assert(fv.take(i + 1).last() == files@[i as int]@);
            reveal(Seq::filter);
        }
        let v = chars_of(files[i].as_str());
        match strip_prefix_chars(&v, "removed:") {
            Some(rest) => {
                let ghost before = fv.take(i as int).filter(|f: Seq<char>| starts_with(f, "removed:"@));
                push_str(&mut removed, string_of(&rest));
                proof {
                    assert(fv.take(i + 1).filter(|f: Seq<char>| starts_with(f, "removed:"@)) =~= before.push(
                        v@,
                    ));
                    assert(before.push(v@).map_values(|f: Seq<char>| f.subrange(8, f.len() as int))
                        =~= before.map_values(|f: Seq<char>| f.subrange(8, f.len() as int)).push(
                        rest@,
                    ));
                }
            },
            None => {
                push_str(&mut jars, files[i].clone());
            },
        }
        i = i + 1;
    }
    assert(fv.take(files@.len() as int) =~= fv);
    let mut notes: Vec<String> = Vec::new();
    let mut first = "Клиент: mmc-pack → ".to_string();
    first.append(target);
    first.append(", jar: ");
    first.append(join_strings(&jars, ", ").as_str());
    push_str(&mut notes, first);
    if removed.len() > 0 {
        let mut second = "Удалены installer (клиент): ".to_string();
        second.append(join_strings(&removed, ", ").as_str());
        push_str(&mut notes, second);
    }
    notes
}

/// The note on an update that was not needed.
pub fn already_on_note(side_label: &str, target: &str) -> (r: String)
    ensures
        r@ == side_label@ + " уже на "@ + target@ + "."@,
{
    let mut m = side_label.to_string();
    m.append(" уже на ");
    m.append(target);
    m.append(".");
    m
}

/// The notes on a server update.
pub fn server_update_notes(target: &str, server_root: &str, removed: &Vec<String>) -> (r: Vec<String>)
    ensures
        string_views(r@) == seq!["Сервер: installer "@ + target@ + " выполнен в "@ + server_root@ + "."@]
            + if removed@.len() > 0 {
            seq!["Удалены installer (сервер): "@ + join(string_views(removed@), ", "@)]
        } else {
            Seq::<Seq<char>>::empty()
        },
{
    let mut notes: Vec<String> = Vec::new();
    let mut first = "Сервер: installer ".to_string();
    first.append(target);
    first.append(" выполнен в ");
    first.append(server_root);
    first.append(".");
    push_str(&mut notes, first);
    if removed.len() > 0 {
        let mut second = "Удалены installer (сервер): ".to_string();
        second.append(join_strings(removed, ", ").as_str());
        push_str(&mut notes, second);
    }
    notes
}

pub fn updated_message(target: &str) -> (r: String)
    ensures
        r@ == "NeoForge обновлён до "@ + target@ + "."@,
{
    let mut m = "NeoForge обновлён до ".to_string();
    m.append(target);
    m.append(".");
    m
}

// ---------------------------------------------------------------------------
// A run that applies an update
// ---------------------------------------------------------------------------

/// What the user asked to update, and to which version.
pub struct NeoForgeApplyRequest {
    pub target_version: Option<String>,
    pub update_client: bool,
    pub update_server: bool,
    pub ssh_host: Option<String>,
}

/// What an update run reports.
pub struct NeoForgeApplyResult {
    pub ok: bool,
    pub message: String,
    pub client_version: Option<String>,
    pub server_version: Option<String>,
    pub warnings: Vec<String>,
}

#[derive(PartialEq, Eq, Structural, Clone, Copy)]
pub enum ApplyPhase {
    Start,
    Client,
    Server,
    Done,
}

/// Where an update run stands: what it updates, the SSH host and server root
/// it would use, the target version, the versions known so far and the
/// notes collected.
pub struct LoaderApplyRun {
    pub update_client: bool,
    pub update_server: bool,
    pub host: Option<String>,
    pub server_root: Option<String>,
    pub target: String,
    pub client_version: Option<String>,
    pub server_version: Option<String>,
    pub warnings: Vec<String>,
    pub phase: ApplyPhase,
}

/// What happened since the last step.
pub enum ApplyEvent {
    /// The run begins.
    Begin,
    /// The client update ran: the files it fetched (`removed:`-prefixed for
    /// the installers it deleted), or why it failed.
    ClientApplied(Result<Vec<String>, String>),
    /// The server update ran: the installers it deleted, or why it failed.
    ServerApplied(Result<Vec<String>, String>),
}

/// What the caller does next.
pub enum ApplyAction {
    /// Install this version into the client instance.
    UpdateClient(String),
    /// Run the installer of this version on the server: host, server root,
    /// version.
    UpdateServer(String, String, String),
    /// The run is over and went well; its report is `apply_result`.
    Finish,
    /// The run stops with this error.
    Fail(String),
}

/// A run waiting for the client update was asked for it; one waiting for
/// the server update knows the host and root to use and has the client, if
/// it was asked for, on the target already.
pub open spec fn apply_run_wf(run: LoaderApplyRun) -> bool {
    &&& run.phase == ApplyPhase::Client ==> run.update_client
    &&& run.phase == ApplyPhase::Server ==> {
        &&& run.host is Some
        &&& run.server_root is Some
        &&& run.update_client ==> opt_view(run.client_version) == Some(run.target@)
    }
}

/// Fields a step never changes.
pub open spec fn apply_run_kept(a: LoaderApplyRun, b: LoaderApplyRun) -> bool {
    &&& a.update_client == b.update_client
    &&& a.update_server == b.update_server
    &&& a.host == b.host
    &&& a.server_root == b.server_root
    &&& a.target == b.target
}

/// The server part of a run, entered from `base` with the client version
/// `client` and the notes `notes`: nothing to do finishes; a missing host
/// or server root fails; a server already on the target is noted and
/// finishes; else the server update is asked for.
pub open spec fn server_part(
    base: LoaderApplyRun,
    client: Option<Seq<char>>,
    notes: Seq<Seq<char>>,
    after: LoaderApplyRun,
    r: ApplyAction,
) -> bool {
    &&& apply_run_kept(base, after)
    &&& opt_view(after.client_version) == client
    &&& after.server_version == base.server_version
    &&& if !base.update_server {
        &&& after.phase == ApplyPhase::Done
        &&& string_views(after.warnings@) == notes
        &&& r is Finish
    } else if base.host is None {
        &&& after.phase == ApplyPhase::Done
        &&& r matches ApplyAction::Fail(e) && e@ == "Укажите SSH host."@
    } else if base.server_root is None {
        &&& after.phase == ApplyPhase::Done
        &&& r matches ApplyAction::Fail(e) && e@ == "Укажите путь server mods — из него выводится корень сервера."@
    } else if opt_view(base.server_version) == Some(base.target@) {
        &&& after.phase == ApplyPhase::Done
        &&& string_views(after.warnings@) == notes.push("Сервер уже на "@ + base.target@ + "."@)
        &&& r is Finish
    } else {
        &&& after.phase == ApplyPhase::Server
        &&& string_views(after.warnings@) == notes
        &&& r matches ApplyAction::UpdateServer(h, root, t) && Some(h@) == opt_view(base.host) && Some(root@)
            == opt_view(base.server_root) && t@ == base.target@
    }
}

pub open spec fn server_notes(target: Seq<char>, server_root: Seq<char>, removed: Seq<Seq<char>>) -> Seq<Seq<char>> {
    seq!["Сервер: installer "@ + target + " выполнен в "@ + server_root + "."@] + if removed.len() > 0 {
        seq!["Удалены installer (сервер): "@ + join(removed, ", "@)]
    } else {
        Seq::<Seq<char>>::empty()
    }
}

/// Before anything else: something to update must be chosen, then the
/// instance must be set; gives the instance's root.
pub fn apply_begin(update_client: bool, update_server: bool, instance_root: &Option<String>) -> (r: Result<String, String>)
    ensures
        !update_client && !update_server ==> (r matches Err(e) && e@ == "Выберите клиент и/или сервер."@),
        update_client || update_server ==> match opt_view(*instance_root) {
            Some(s) if trim(s).len() > 0 => r matches Ok(v) && v@ == trim(s),
            _ => r matches Err(e) && e@ == "Сначала выберите инстанс."@,
        },
{
    if !update_client && !update_server {
        return Err("Выберите клиент и/или сервер.".to_string());
    }
    instance_root_of(instance_root)
}

fn on_version(v: &Option<String>, target: &str) -> (r: bool)
    ensures
        r == (opt_view(*v) == Some(target@)),
{
    match v {
        Some(s) => eq_str(&chars_of(s.as_str()), target),
        None => false,
    }
}

fn append_notes(v: &mut Vec<String>, notes: Vec<String>)
    ensures
        string_views(final(v)@) == string_views(old(v)@) + string_views(notes@),
{
    let ghost start = string_views(v@);
    let mut i: usize = 0;
    while i < notes.len()
        invariant
            i <= notes@.len(),
            string_views(v@) == start + string_views(notes@.take(i as int)),
        decreases notes@.len() - i,
    {
        let ghost before = v@;
        v.push(notes[i].clone());
        assert(string_views(notes@.take(i + 1)) =~= string_views(notes@.take(i as int)).push(notes@[i as int]@));
        assert(string_views(v@) =~= string_views(before).push(notes@[i as int]@));
        i = i + 1;
    }
    assert(notes@.take(notes@.len() as int) =~= notes@);
}

/// After the check: it must have gone well; the target is the version asked
/// for (trimmed, when not blank) or the latest, and one of those offered
/// when any are. The run starts from what the check found.
pub fn apply_plan(request: &NeoForgeApplyRequest, configured_host: &str, check: NeoForgeCheckResult) -> (r: Result<
    LoaderApplyRun,
    String,
>)
    ensures
        !check.ok ==> (r matches Err(e) && e@ == check.message@),
        check.ok ==> match target_version_of(opt_view(request.target_version), opt_view(check.latest_version)) {
            None => r matches Err(e) && e@ == "Не удалось определить целевую версию."@,
            Some(t) => if check.available_versions@.len() > 0 && !string_views(check.available_versions@).contains(
                t,
            ) {
                r matches Err(e) && e@ == "Версия "@ + t + " недоступна для этого Minecraft."@
            } else {
                r matches Ok(run) && {
                    &&& run.target@ == t
                    &&& run.update_client == request.update_client
                    &&& run.update_server == request.update_server
                    &&& opt_view(run.host) == ssh_host_of(opt_view(request.ssh_host), configured_host@)
                    &&& run.server_root == check.server_root
                    &&& run.client_version == check.client_version
                    &&& run.server_version == check.server_version
                    &&& run.warnings == check.warnings
                    &&& run.phase == ApplyPhase::Start
                    &&& apply_run_wf(run)
                }
            },
        },
{
    if !check.ok {
        return Err(check.message);
    }
    let target = match target_version_for(opt_str(&request.target_version), &check.latest_version) {
        Ok(t) => t,
        Err(e) => {
            return Err(e);
        },
    };
    if check.available_versions.len() > 0 {
        match validate_target_version(target.as_str(), check.available_versions.as_slice()) {
            Ok(()) => {},
            Err(e) => {
                return Err(e);
            },
        }
    }
    let host = resolve_ssh_host(opt_str(&request.ssh_host), configured_host);
    Ok(LoaderApplyRun {
        update_client: request.update_client,
        update_server: request.update_server,
        host,
        server_root: check.server_root,
        target,
        client_version: check.client_version,
        server_version: check.server_version,
        warnings: check.warnings,
        phase: ApplyPhase::Start,
    })
}

fn server_step(run: &mut LoaderApplyRun) -> (r: ApplyAction)
    requires
        old(run).update_client ==> opt_view(old(run).client_version) == Some(old(run).target@),
    ensures
        server_part(*old(run), opt_view(old(run).client_version), string_views(old(run).warnings@), *final(run), r),
        apply_run_wf(*final(run)),
        r is Finish ==> {
            &&& final(run).update_client ==> opt_view(final(run).client_version) == Some(final(run).target@)
            &&& final(run).update_server ==> opt_view(final(run).server_version) == Some(final(run).target@)
        },
{
    if !run.update_server {
        run.phase = ApplyPhase::Done;
        return ApplyAction::Finish;
    }
    let host = match &run.host {
        Some(h) => h.clone(),
        None => {
            run.phase = ApplyPhase::Done;
            return ApplyAction::Fail("Укажите SSH host.".to_string());
        },
    };
    let root = match &run.server_root {
        Some(s) => s.clone(),
        None => {
            run.phase = ApplyPhase::Done;
            return ApplyAction::Fail("Укажите путь server mods — из него выводится корень сервера.".to_string());
        },
    };
    if on_version(&run.server_version, run.target.as_str()) {
        let note = already_on_note("Сервер", run.target.as_str());
        proof {
            reveal_strlit("Сервер");
            reveal_strlit(" уже на ");
            reveal_strlit("Сервер уже на ");
            assert("Сервер"@ + " уже на "@ =~= "Сервер уже на "@);
        }
        push_str(&mut run.warnings, note);
        run.phase = ApplyPhase::Done;
        return ApplyAction::Finish;
    }
    run.phase = ApplyPhase::Server;
    ApplyAction::UpdateServer(host, root, run.target.clone())
}

/// One step of an update run. It begins with the client: one already on the
/// target is noted, else its update is asked for and, once it ran, the
/// client is on the target and the files it fetched and the installers it
/// removed are noted. The server follows the same way (see
/// `server_part`). A failed update ends the run with its error; a run that
/// finishes has every side it was asked to update on the target.
pub fn apply_step(run: &mut LoaderApplyRun, event: ApplyEvent) -> (r: ApplyAction)
    requires
        apply_run_wf(*old(run)),
        old(run).phase == ApplyPhase::Start ==> event is Begin,
        old(run).phase == ApplyPhase::Client ==> event is ClientApplied,
        old(run).phase == ApplyPhase::Server ==> event is ServerApplied,
        old(run).phase != ApplyPhase::Done,
    ensures
        apply_run_wf(*final(run)),
        apply_run_kept(*old(run), *final(run)),
        r is Finish ==> {
            &&& final(run).update_client ==> opt_view(final(run).client_version) == Some(final(run).target@)
            &&& final(run).update_server ==> opt_view(final(run).server_version) == Some(final(run).target@)
        },
        match event {
            ApplyEvent::Begin => if !old(run).update_client {
                server_part(*old(run), opt_view(old(run).client_version), string_views(old(run).warnings@), *final(run), r)
            } else if opt_view(old(run).client_version) == Some(old(run).target@) {
                server_part(
                    *old(run),
                    opt_view(old(run).client_version),
                    string_views(old(run).warnings@).push("Клиент уже на "@ + old(run).target@ + "."@),
                    *final(run),
                    r,
                )
            } else {
                &&& final(run).phase == ApplyPhase::Client
                &&& final(run).client_version == old(run).client_version
                &&& final(run).server_version == old(run).server_version
                &&& final(run).warnings == old(run).warnings
                &&& r matches ApplyAction::UpdateClient(t) && t@ == old(run).target@
            },
            ApplyEvent::ClientApplied(Err(e)) => final(run).phase == ApplyPhase::Done && r == ApplyAction::Fail(e),
            ApplyEvent::ClientApplied(Ok(files)) => server_part(
                *old(run),
                Some(old(run).target@),
                string_views(old(run).warnings@) + client_notes(old(run).target@, string_views(files@)),
                *final(run),
                r,
            ),
            ApplyEvent::ServerApplied(Err(e)) => final(run).phase == ApplyPhase::Done && r == ApplyAction::Fail(e),
            ApplyEvent::ServerApplied(Ok(removed)) => {
                &&& final(run).phase == ApplyPhase::Done
                &&& final(run).client_version == old(run).client_version
                &&& opt_view(final(run).server_version) == Some(old(run).target@)
                &&& string_views(final(run).warnings@) == string_views(old(run).warnings@) + server_notes(
                    old(run).target@,
                    opt_view(old(run).server_root).unwrap(),
                    string_views(removed@),
                )
                &&& r is Finish
            },
        },
{
    match event {
        ApplyEvent::Begin => {
            if run.update_client {
                if on_version(&run.client_version, run.target.as_str()) {
                    let note = already_on_note("Клиент", run.target.as_str());
                    proof {
                        reveal_strlit("Клиент");
                        reveal_strlit(" уже на ");
                        reveal_strlit("Клиент уже на ");
                        assert("Клиент"@ + " уже на "@ =~= "Клиент уже на "@);
                    }
                    push_str(&mut run.warnings, note);
                } else {
                    run.phase = ApplyPhase::Client;
                    return ApplyAction::UpdateClient(run.target.clone());
                }
            }
            server_step(run)
        },
        ApplyEvent::ClientApplied(Err(e)) => {
            run.phase = ApplyPhase::Done;
            ApplyAction::Fail(e)
        },
        ApplyEvent::ClientApplied(Ok(files)) => {
            let notes = client_update_notes(run.target.as_str(), &files);
            append_notes(&mut run.warnings, notes);
            run.client_version = Some(run.target.clone());
            server_step(run)
        },
        ApplyEvent::ServerApplied(Err(e)) => {
            run.phase = ApplyPhase::Done;
            ApplyAction::Fail(e)
        },
        ApplyEvent::ServerApplied(Ok(removed)) => {
            let root = match &run.server_root {
                Some(s) => s.clone(),
                None => String::new(),
            };
            let notes = server_update_notes(run.target.as_str(), root.as_str(), &removed);
            append_notes(&mut run.warnings, notes);
            run.server_version = Some(run.target.clone());
            run.phase = ApplyPhase::Done;
            ApplyAction::Finish
        },
    }
}

/// The report of a run that finished: updated to the target, with the
/// versions it left and the notes it collected.
pub fn apply_result(run: LoaderApplyRun) -> (r: NeoForgeApplyResult)
    ensures
        r.ok,
        r.message@ == "NeoForge обновлён до "@ + run.target@ + "."@,
        r.client_version == run.client_version,
        r.server_version == run.server_version,
        r.warnings == run.warnings,
{
    let message = updated_message(run.target.as_str());
    NeoForgeApplyResult {
        ok: true,
        message,
        client_version: run.client_version,
        server_version: run.server_version,
        warnings: run.warnings,
    }
}

/// Why a server installer failed: its output, cut to 240 characters.
pub open spec fn install_failure_text(stdout: Seq<char>, stderr: Seq<char>) -> Seq<char> {
    let combined = trim(stdout + "\n"@ + stderr);
    if combined.len() == 0 {
        "Installer на сервере завершился с ошибкой."@
    } else if combined.len() > 240 {
        combined.take(240) + "…"@
    } else {
        combined
    }
}

pub fn install_failure_message(stdout: &str, stderr: &str) -> (r: String)
    ensures
        r@ == install_failure_text(stdout@, stderr@),
{
    let mut all = stdout.to_string();
    all.append("\n");
    all.append(stderr);
    let c = trimmed(all.as_str());
    if c.len() == 0 {
        "Installer на сервере завершился с ошибкой.".to_string()
    } else if c.len() > 240 {
        let head = slice_chars(&c, 0, 240);
        assert(head@ =~= c@.take(240));
        let mut m = string_of(&head);
        m.append("…");
        m
    } else {
        string_of(&c)
    }
}

/// Where the installer goes on the server, and the command that runs it.
pub open spec fn server_install_plan_of(server_root: Seq<char>, target: Seq<char>) -> (Seq<char>, Seq<char>) {
    let remote_root = replace_char(trim_end_char(server_root, '/'), '\\', "/"@);
    let installer = remote_root + "/"@ + "neoforge-"@ + target + "-installer.jar"@;
    (
        installer,
        "cd /d \""@ + replace_char(remote_root, '/', "\\"@) + "\" && java -jar \""@ + replace_char(
            installer,
            '/',
            "\\"@,
        ) + "\" --installServer"@,
    )
}

pub fn server_install_plan(server_root: &str, target: &str) -> (r: (String, String))
    ensures
        (r.0@, r.1@) == server_install_plan_of(server_root@, target@),
{
    let v = chars_of(server_root);
    let a = trim_end_char_chars(&v, '/');
    let slash = chars_of("/");
    let root = replace_char_chars(&a, '\\', &slash);
    let mut installer = string_of(&root);
    installer.append("/");
    installer.append("neoforge-");
    installer.append(target);
    installer.append("-installer.jar");
    let bs = chars_of("\\");
    let win_root = replace_char_chars(&root, '/', &bs);
    let iv = chars_of(installer.as_str());
    let win_installer = replace_char_chars(&iv, '/', &bs);
    let mut cmd = "cd /d \"".to_string();
    cmd.append(string_of(&win_root).as_str());
    cmd.append("\" && java -jar \"");
    cmd.append(string_of(&win_installer).as_str());
    cmd.append("\" --installServer");
    (installer, cmd)
}

// ---------------------------------------------------------------------------
// Fabric's catalog
// ---------------------------------------------------------------------------

/// Fabric Loader versions from the metadata entries, trimmed, without blanks
/// and repeats, in their first order.
pub open spec fn unique_versions(entries: Seq<Option<Seq<char>>>) -> Seq<Seq<char>>
    decreases entries.len(),
{
    if entries.len() == 0 {
        Seq::<Seq<char>>::empty()
    } else {
        let prev = unique_versions(entries.drop_last());
        match entries.last() {
            Some(v) => if trim(v).len() > 0 && !prev.contains(trim(v)) {
                prev.push(trim(v))
            } else {
                prev
            },
            None => prev,
        }
    }
}

pub open spec fn opt_views(v: Seq<Option<String>>) -> Seq<Option<Seq<char>>> {
    v.map_values(|o: Option<String>| opt_view(o))
}

fn contains_view(v: &Vec<String>, x: &[char]) -> (r: bool)
    ensures
        r == string_views(v@).contains(x@),
{
    let mut i: usize = 0;
    while i < v.len()
        invariant
            i <= v@.len(),
            forall|j: int| 0 <= j < i ==> string_views(v@)[j] != x@,
        decreases v@.len() - i,
    {
        if eq_str(x, v[i].as_str()) {
            assert(string_views(v@)[i as int] == x@);
            return true;
        }
        i = i + 1;
    }
    false
}

/// The Fabric Loader versions for a Minecraft version, newest first; an
/// error when there are none.
pub fn fabric_versions(entries: &Vec<Option<String>>, minecraft_version: &str) -> (r: Result<Vec<String>, String>)
    ensures
        unique_versions(opt_views(entries@)).len() == 0 ==> (r matches Err(e) && e@
            == "Не найдены версии Fabric Loader для Minecraft "@ + minecraft_version@ + "."@),
        unique_versions(opt_views(entries@)).len() > 0 ==> (r matches Ok(v) && newest_first(
            unique_versions(opt_views(entries@)),
            string_views(v@),
        )),
{
    let ghost ev = opt_views(entries@);
    let mut versions: Vec<String> = Vec::new();
    let mut i: usize = 0;
    assert(ev.take(0) =~= Seq::<Option<Seq<char>>>::empty());
    while i < entries.len()
        invariant
            i <= entries@.len(),
            ev == opt_views(entries@),
            string_views(versions@) == unique_versions(ev.take(i as int)),
        decreases entries@.len() - i,
    {
        assert(ev.take(i + 1).drop_last() =~= ev.take(i as int));
        assert(ev.take(i + 1).last() == opt_view(entries@[i as int]));
        match &entries[i] {
            Some(v) => {
                let t = trimmed(v.as_str());
                if t.len() > 0 && !contains_view(&versions, &t) {
                    push_str(&mut versions, string_of(&t));
                }
            },
            None => {},
        }
        i = i + 1;
    }
    assert(ev.take(entries@.len() as int) =~= ev);
    if versions.len() == 0 {
        let mut m = "Не найдены версии Fabric Loader для Minecraft ".to_string();
        m.append(minecraft_version);
        m.append(".");
        return Err(m);
    }
    Ok(versions_newest_first(versions.as_slice()))
}

// ---------------------------------------------------------------------------
// The catalog of versions
// ---------------------------------------------------------------------------

pub struct NeoForgeVersionCatalog {
    pub ok: bool,
    pub loader: String,
    pub apply_supported: bool,
    pub minecraft_version: Option<String>,
    pub latest_version: Option<String>,
    pub available_versions: Vec<String>,
    pub message: String,
}

/// The catalog shown for the instance: the loader found (NeoForge by
/// default), whether updating it is supported, and the fetched versions or
/// why there are none.
pub fn catalog_report(
    instance_root: Result<(), String>,
    loader: &str,
    minecraft_version: Option<String>,
    fetched: Option<Result<(String, Vec<String>), String>>,
) -> (r: NeoForgeVersionCatalog)
    ensures
        instance_root matches Err(e) ==> !r.ok && r.message@ == e@ && r.loader@ == "neoforge"@
            && r.apply_supported && r.minecraft_version is None && r.latest_version is None
            && r.available_versions@.len() == 0,
        instance_root is Ok ==> {
            let l = effective_loader(loader@);
            &&& r.loader@ == l
            &&& r.apply_supported == (l == "neoforge"@)
            &&& opt_view(r.minecraft_version) == opt_view(minecraft_version)
            &&& minecraft_version is None ==> !r.ok && r.message@
                == "Не найдена версия Minecraft в mmc-pack.json."@ && r.latest_version is None
                && r.available_versions@.len() == 0
            &&& minecraft_version is Some ==> match catalog_view(fetched) {
                Some(Ok((latest, vs))) => r.ok && opt_view(r.latest_version) == Some(latest)
                    && string_views(r.available_versions@) == vs && r.message@ == if l
                    == "neoforge"@ {
                    "Список версий "@ + loader_label_of(l) + " загружен."@
                } else {
                    "Список версий "@ + loader_label_of(l)
                        + " загружен. Обновление через mod-manager пока недоступно."@
                },
                Some(Err(e)) => !r.ok && r.message@ == e && r.latest_version is None
                    && r.available_versions@.len() == 0,
                None => !r.ok && r.latest_version is None && r.available_versions@.len() == 0
                    && r.message@.len() == 0,
            }
        },
{
    match instance_root {
        Err(message) => {
            return NeoForgeVersionCatalog {
                ok: false,
                loader: "neoforge".to_string(),
                apply_supported: true,
                minecraft_version: None,
                latest_version: None,
                available_versions: Vec::new(),
                message,
            };
        },
        Ok(()) => {},
    }
    let l = if loader.is_empty() {
        "neoforge".to_string()
    } else {
        loader.to_string()
    };
    let lv = chars_of(l.as_str());
    let apply_supported = eq_str(&lv, "neoforge");
    let label = loader_label(l.as_str());
    match minecraft_version {
        None => NeoForgeVersionCatalog {
            ok: false,
            loader: l,
            apply_supported,
            minecraft_version: None,
            latest_version: None,
            available_versions: Vec::new(),
            message: "Не найдена версия Minecraft в mmc-pack.json.".to_string(),
        },
        Some(mc) => match fetched {
            Some(Ok((latest, versions))) => {
                let mut m = "Список версий ".to_string();
                m.append(label.as_str());
                if apply_supported {
                    m.append(" загружен.");
                } else {
                    m.append(" загружен. Обновление через mod-manager пока недоступно.");
                }
                NeoForgeVersionCatalog {
                    ok: true,
                    loader: l,
                    apply_supported,
                    minecraft_version: Some(mc),
                    latest_version: Some(latest),
                    available_versions: versions,
                    message: m,
                }
            },
            Some(Err(message)) => NeoForgeVersionCatalog {
                ok: false,
                loader: l,
                apply_supported,
                minecraft_version: Some(mc),
                latest_version: None,
                available_versions: Vec::new(),
                message,
            },
            None => NeoForgeVersionCatalog {
                ok: false,
                loader: l,
                apply_supported,
                minecraft_version: Some(mc),
                latest_version: None,
                available_versions: Vec::new(),
                message: String::new(),
            },
        },
    }
}

/// Which row of the loader table to refresh.
pub enum LoaderRow {
    Client,
    Server,
}

pub fn loader_row(row: &str) -> (r: Result<(String, LoaderRow), String>)
    ensures
        lower(trim(row@)) == "client"@ ==> (r matches Ok((s, LoaderRow::Client)) && s@ == "client"@),
        lower(trim(row@)) == "server"@ ==> (r matches Ok((s, LoaderRow::Server)) && s@ == "server"@),
        lower(trim(row@)) != "client"@ && lower(trim(row@)) != "server"@ ==> (r matches Err(e) && e@
            == "Неизвестная строка loader."@),
{
    let t = trimmed(row);
    let l = to_lower(&t);
    proof {
        reveal_strlit("client");
        reveal_strlit("server");
        assert("client"@[0] != "server"@[0]);
    }
    if eq_str(&l, "client") {
        Ok((string_of(&l), LoaderRow::Client))
    } else if eq_str(&l, "server") {
        Ok((string_of(&l), LoaderRow::Server))
    } else {
        Err("Неизвестная строка loader.".to_string())
    }
}

/// The instance's root as set, trimmed; none set is an error.
pub fn instance_root_of(setting: &Option<String>) -> (r: Result<String, String>)
    ensures
        match opt_view(*setting) {
            Some(s) if trim(s).len() > 0 => r matches Ok(v) && v@ == trim(s),
            _ => r matches Err(e) && e@ == "Сначала выберите инстанс."@,
        },
{
    match setting {
        Some(s) => {
            let t = trim_string(s.as_str());
            if !t.as_str().is_empty() {
                return Ok(t);
            }
            Err("Сначала выберите инстанс.".to_string())
        },
        None => Err("Сначала выберите инстанс.".to_string()),
    }
}

// ---------------------------------------------------------------------------
// Remote commands
// ---------------------------------------------------------------------------

/// A remote path written the Windows way.
pub open spec fn windows_path(path: Seq<char>) -> Seq<char> {
    replace_char(path, '/', "\\"@)
}

/// The PowerShell command that prints the newest NeoForge version installed
/// on a Windows server.
pub open spec fn server_version_script(server_root: Seq<char>) -> Seq<char> {
    "powershell -NoProfile -Command \"$p = Join-Path -Path '"@ + windows_path(server_root)
        + "' -ChildPath 'libraries\\net\\neoforged\\neoforge'; if (Test-Path -LiteralPath $p) { Get-ChildItem -LiteralPath $p -Directory | Sort-Object Name -Descending | Select-Object -First 1 -ExpandProperty Name }\""@
}

pub fn server_version_command(server_root: &str) -> (r: String)
    ensures
        r@ == server_version_script(server_root@),
{
    let v = chars_of(server_root);
    let bs = chars_of("\\");
    let ps_root = string_of(&replace_char_chars(&v, '/', &bs));
    let mut out = "powershell -NoProfile -Command \"$p = Join-Path -Path '".to_string();
    out.append(ps_root.as_str());
    out.append("' -ChildPath 'libraries\\net\\neoforged\\neoforge'; if (Test-Path -LiteralPath $p) { Get-ChildItem -LiteralPath $p -Directory | Sort-Object Name -Descending | Select-Object -First 1 -ExpandProperty Name }\"");
    out
}

/// The version the command printed: its output trimmed; none when blank.
pub fn server_version_from_output(stdout: &str) -> (r: Option<String>)
    ensures
        opt_view(r) == if trim(stdout@).len() == 0 {
            None
        } else {
            Some(trim(stdout@))
        },
{
    let t = trim_string(stdout);
    if t.as_str().is_empty() {
        None
    } else {
        Some(t)
    }
}

/// The PowerShell command that removes NeoForge installers from a Windows
/// server's root and prints their names.
pub open spec fn installer_cleanup_script(server_root: Seq<char>) -> Seq<char> {
    "powershell -NoProfile -Command \"Get-ChildItem -LiteralPath '"@ + windows_path(server_root)
        + "' -Filter 'neoforge-*-installer.jar' -File -ErrorAction SilentlyContinue | ForEach-Object { Write-Output $_.Name; Remove-Item -LiteralPath $_.FullName -Force -ErrorAction Stop }\""@
}

pub fn installer_cleanup_command(server_root: &str) -> (r: String)
    ensures
        r@ == installer_cleanup_script(server_root@),
{
    let v = chars_of(server_root);
    let bs = chars_of("\\");
    let ps_root = string_of(&replace_char_chars(&v, '/', &bs));
    let mut out = "powershell -NoProfile -Command \"Get-ChildItem -LiteralPath '".to_string();
    out.append(ps_root.as_str());
    out.append("' -Filter 'neoforge-*-installer.jar' -File -ErrorAction SilentlyContinue | ForEach-Object { Write-Output $_.Name; Remove-Item -LiteralPath $_.FullName -Force -ErrorAction Stop }\"");
    out
}

/// Where a PrismLauncher installation starts, from the names of an instance
/// folder and its ancestors (nearest first; `None` for a nameless root): the
/// parent of the first `instances` folder, or the first `PrismLauncher`
/// folder itself, whichever comes first; none past the top.
pub open spec fn prism_root_in(names: Seq<Option<Seq<char>>>, i: int) -> Option<int>
    decreases names.len() - i,
{
    if i < 0 || i >= names.len() {
        None
    } else {
        match names[i] {
            Some(n) => if lower(n) == "instances"@ {
                if i + 1 < names.len() {
                    Some(i + 1)
                } else {
                    None
                }
            } else if lower(n) == "prismlauncher"@ {
                Some(i)
            } else {
                prism_root_in(names, i + 1)
            },
            None => prism_root_in(names, i + 1),
        }
    }
}

pub fn prism_root_index(names: &Vec<Option<String>>) -> (r: Option<usize>)
    ensures
        match r {
            Some(i) => prism_root_in(names@.map_values(|o: Option<String>| opt_view(o)), 0) == Some(i as int),
            None => prism_root_in(names@.map_values(|o: Option<String>| opt_view(o)), 0) is None,
        },
{
    let ghost nv = names@.map_values(|o: Option<String>| opt_view(o));
    let mut i: usize = 0;
    while i < names.len()
        invariant
            i <= names@.len(),
            nv == names@.map_values(|o: Option<String>| opt_view(o)),
            prism_root_in(nv, 0) == prism_root_in(nv, i as int),
        decreases names@.len() - i,
    {
        match &names[i] {
            Some(n) => {
                let l = to_lower(&chars_of(n.as_str()));
                if eq_str(&l, "instances") {
                    if i + 1 < names.len() {
                        return Some(i + 1);
                    }
                    return None;
                }
                if eq_str(&l, "prismlauncher") {
                    return Some(i);
                }
            },
            None => {},
        }
        i = i + 1;
    }
    None
}

} // verus!
