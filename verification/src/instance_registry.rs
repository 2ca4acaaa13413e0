//! Which instances have had their covers and dependencies prepared, and for
//! which state of their mods folders.
use vstd::prelude::*;
use crate::text::{opt_view};

verus! {

pub struct InstanceRecord {
    pub instance_root: String,
    pub display_name: String,
    pub mods_fingerprint: String,
    pub covers_ready: bool,
    pub dependencies_ready: bool,
    pub last_prepared_at: String,
    pub last_opened_at: String,
}

/// The registry: one record per instance key, in the order they were added.
pub struct InstanceRegistry {
    pub version: u8,
    pub instances: Vec<(String, InstanceRecord)>,
}

pub struct InstanceCacheStatus {
    pub instance_root: Option<String>,
    pub display_name: Option<String>,
    pub mods_fingerprint: String,
    pub covers_ready: bool,
    pub dependencies_ready: bool,
    pub ready: bool,
    pub needs_covers: bool,
    pub needs_dependencies: bool,
}

pub struct BootstrapResult {
    pub skipped: bool,
    pub ran_covers: bool,
    pub ran_dependencies: bool,
}

pub struct ClearDataResult {
    pub removed_catalog_files: u32,
    pub cleared_instances: u32,
    pub cleared_instance_dirs: u32,
}

pub fn registry_version() -> (r: u8)
    ensures
        r == 1,
{
    1
}

/// What a record holds, as plain values.
pub struct RecordView {
    pub instance_root: Seq<char>,
    pub display_name: Seq<char>,
    pub mods_fingerprint: Seq<char>,
    pub covers_ready: bool,
    pub dependencies_ready: bool,
    pub last_prepared_at: Seq<char>,
    pub last_opened_at: Seq<char>,
}

impl View for InstanceRecord {
    type V = RecordView;

    open spec fn view(&self) -> RecordView {
        RecordView {
            instance_root: self.instance_root@,
            display_name: self.display_name@,
            mods_fingerprint: self.mods_fingerprint@,
            covers_ready: self.covers_ready,
            dependencies_ready: self.dependencies_ready,
            last_prepared_at: self.last_prepared_at@,
            last_opened_at: self.last_opened_at@,
        }
    }
}

pub open spec fn entry_views(entries: Seq<(String, InstanceRecord)>) -> Seq<(Seq<char>, RecordView)> {
    entries.map_values(|e: (String, InstanceRecord)| (e.0@, e.1@))
}

impl View for InstanceRegistry {
    type V = Seq<(Seq<char>, RecordView)>;

    open spec fn view(&self) -> Seq<(Seq<char>, RecordView)> {
        entry_views(self.instances@)
    }
}

/// The keys of the entries.
pub open spec fn keys(entries: Seq<(Seq<char>, RecordView)>) -> Seq<Seq<char>> {
    entries.map_values(|e: (Seq<char>, RecordView)| e.0)
}

/// No key occurs twice.
pub open spec fn well_formed(entries: Seq<(Seq<char>, RecordView)>) -> bool {
    keys(entries).no_duplicates()
}

/// Index of the first entry with the key, searching from `i`.
pub open spec fn key_index_from(entries: Seq<(Seq<char>, RecordView)>, key: Seq<char>, i: int) -> Option<int>
    decreases entries.len() - i,
{
    if i < 0 || i >= entries.len() {
        None
    } else if entries[i].0 == key {
        Some(i)
    } else {
        key_index_from(entries, key, i + 1)
    }
}

pub open spec fn key_index(entries: Seq<(Seq<char>, RecordView)>, key: Seq<char>) -> Option<int> {
    key_index_from(entries, key, 0)
}

/// The record stored under a key.
pub open spec fn lookup(entries: Seq<(Seq<char>, RecordView)>, key: Seq<char>) -> Option<RecordView> {
    match key_index(entries, key) {
        Some(i) => Some(entries[i].1),
        None => None,
    }
}

pub proof fn lemma_key_index_from(entries: Seq<(Seq<char>, RecordView)>, key: Seq<char>, i: int)
    requires
        0 <= i,
    ensures
        match key_index_from(entries, key, i) {
            Some(j) => i <= j < entries.len() && entries[j].0 == key && forall|k: int|
                i <= k < j ==> entries[k].0 != key,
            None => forall|k: int| i <= k < entries.len() ==> entries[k].0 != key,
        },
    decreases entries.len() - i,
{
    if i < entries.len() && entries[i].0 != key {
        lemma_key_index_from(entries, key, i + 1);
    }
}

fn find_key(entries: &Vec<(String, InstanceRecord)>, key: &String) -> (r: Option<usize>)
    ensures
        match r {
            Some(i) => key_index(entry_views(entries@), key@) == Some(i as int) && i < entries@.len(),
            None => key_index(entry_views(entries@), key@) is None,
        },
{
    let ghost ev = entry_views(entries@);
    let mut i: usize = 0;
    while i < entries.len()
        invariant
            i <= entries@.len(),
            ev == entry_views(entries@),
            key_index(ev, key@) == key_index_from(ev, key@, i as int),
        decreases entries@.len() - i,
    {
        if entries[i].0 == *key {
            return Some(i);
        }
        i = i + 1;
    }
    None
}

/// A fresh record for an instance seen for the first time.
pub open spec fn fresh_record(root: Seq<char>, name: Seq<char>, now: Seq<char>) -> RecordView {
    RecordView {
        instance_root: root,
        display_name: name,
        mods_fingerprint: Seq::<char>::empty(),
        covers_ready: false,
        dependencies_ready: false,
        last_prepared_at: Seq::<char>::empty(),
        last_opened_at: now,
    }
}

/// The registry after an instance was opened: its record (added if missing)
/// gets the current root, display name and opening time.
pub open spec fn opened(reg: Seq<(Seq<char>, RecordView)>, key: Seq<char>, root: Seq<char>, name: Seq<char>, now: Seq<char>) -> Seq<(Seq<char>, RecordView)> {
    match key_index(reg, key) {
        Some(i) => reg.update(
            i,
            (
                key,
                RecordView {
                    instance_root: root,
                    display_name: name,
                    last_opened_at: now,
                    ..reg[i].1
                },
            ),
        ),
        None => reg.push((key, fresh_record(root, name, now))),
    }
}

/// The registry after a preparation run: the record (added if missing) takes
/// the fingerprint, gains the parts that were prepared, and the time.
pub open spec fn prepared(
    reg: Seq<(Seq<char>, RecordView)>,
    key: Seq<char>,
    root: Seq<char>,
    name: Seq<char>,
    fingerprint: Seq<char>,
    covers: bool,
    dependencies: bool,
    now: Seq<char>,
) -> Seq<(Seq<char>, RecordView)> {
    let base = match lookup(reg, key) {
        Some(r) => r,
        None => fresh_record(root, name, now),
    };
    let rec = RecordView {
        mods_fingerprint: fingerprint,
        covers_ready: base.covers_ready || covers,
        dependencies_ready: base.dependencies_ready || dependencies,
        last_prepared_at: now,
        last_opened_at: now,
        ..base
    };
    match key_index(reg, key) {
        Some(i) => reg.update(i, (key, rec)),
        None => reg.push((key, rec)),
    }
}

/// Covers (first) and dependencies (second) are ready for the key when its
/// record says so and was prepared for the same fingerprint.
pub open spec fn readiness(reg: Seq<(Seq<char>, RecordView)>, key: Seq<char>, fingerprint: Seq<char>) -> (bool, bool) {
    match lookup(reg, key) {
        Some(r) => (
            r.covers_ready && r.mods_fingerprint == fingerprint,
            r.dependencies_ready && r.mods_fingerprint == fingerprint,
        ),
        None => (false, false),
    }
}

fn replace_entry(entries: &mut Vec<(String, InstanceRecord)>, i: usize, e: (String, InstanceRecord)) -> (r: (String, InstanceRecord))
    requires
        i < old(entries)@.len(),
    ensures
        final(entries)@ == old(entries)@.update(i as int, e),
        r == old(entries)@[i as int],
{
    let old_e = entries.remove(i);
    entries.insert(i, e);
    assert(entries@ =~= old(entries)@.update(i as int, e));
    old_e
}

/// Records that an instance was opened now, under its key.
pub fn touch_opened_entry(registry: &mut InstanceRegistry, key: String, instance_root: String, display_name: String, now: String)
    ensures
        final(registry)@ == opened(old(registry)@, key@, instance_root@, display_name@, now@),
        final(registry).version == old(registry).version,
{
    let ghost k = key@;
    let ghost ev = old(registry)@;
    match find_key(&registry.instances, &key) {
        Some(i) => {
            let placeholder = (String::new(), InstanceRecord {
                instance_root: String::new(),
                display_name: String::new(),
                mods_fingerprint: String::new(),
                covers_ready: false,
                dependencies_ready: false,
                last_prepared_at: String::new(),
                last_opened_at: String::new(),
            });
            let (_, old_rec) = replace_entry(&mut registry.instances, i, placeholder);
            let rec = InstanceRecord {
                instance_root,
                display_name,
                last_opened_at: now,
                ..old_rec
            };
            let ghost rv = rec@;
            let _ = replace_entry(&mut registry.instances, i, (key, rec));
            assert(entry_views(registry.instances@) =~= opened(ev, k, rv.instance_root, rv.display_name, rv.last_opened_at));
        },
        None => {
            let rec = InstanceRecord {
                instance_root,
                display_name,
                mods_fingerprint: String::new(),
                covers_ready: false,
                dependencies_ready: false,
                last_prepared_at: String::new(),
                last_opened_at: now,
            };
            let ghost before = registry.instances@;
            registry.instances.push((key, rec));
            assert(entry_views(registry.instances@) =~= entry_views(before).push((k, rec@)));
        },
    }
}

/// Records a preparation run for the instance under `key`.
pub fn mark_prepared_entry(
    registry: &mut InstanceRegistry,
    key: String,
    instance_root: String,
    display_name: String,
    mods_fingerprint: String,
    covers: bool,
    dependencies: bool,
    now: String,
)
    ensures
        final(registry)@ == prepared(
            old(registry)@,
            key@,
            instance_root@,
            display_name@,
            mods_fingerprint@,
            covers,
            dependencies,
            now@,
        ),
        final(registry).version == old(registry).version,
{
    let ghost k = key@;
    let ghost ev = old(registry)@;
    let ghost nv = now@;
    let ghost fv = mods_fingerprint@;
    match find_key(&registry.instances, &key) {
        Some(i) => {
            let placeholder = (String::new(), InstanceRecord {
                instance_root: String::new(),
                display_name: String::new(),
                mods_fingerprint: String::new(),
                covers_ready: false,
                dependencies_ready: false,
                last_prepared_at: String::new(),
                last_opened_at: String::new(),
            });
            let (_, old_rec) = replace_entry(&mut registry.instances, i, placeholder);
            let rec = InstanceRecord {
                mods_fingerprint,
                covers_ready: old_rec.covers_ready || covers,
                dependencies_ready: old_rec.dependencies_ready || dependencies,
                last_prepared_at: now.clone(),
                last_opened_at: now,
                ..old_rec
            };
            let _ = replace_entry(&mut registry.instances, i, (key, rec));
            assert(entry_views(registry.instances@) =~= prepared(ev, k, instance_root@, display_name@, fv, covers, dependencies, nv));
        },
        None => {
            let rec = InstanceRecord {
                instance_root,
                display_name,
                mods_fingerprint,
                covers_ready: covers,
                dependencies_ready: dependencies,
                last_prepared_at: now.clone(),
                last_opened_at: now,
            };
            let ghost before = registry.instances@;
            registry.instances.push((key, rec));
            assert(entry_views(registry.instances@) =~= entry_views(before).push((k, rec@)));
        },
    }
}

/// The cache status of the instance under `key`, reported with its root and
/// display name.
pub fn cache_status_entry(
    registry: &InstanceRegistry,
    key: &String,
    instance_root: String,
    display_name: String,
    mods_fingerprint: &str,
) -> (r: InstanceCacheStatus)
    ensures
        opt_view(r.instance_root) == Some(instance_root@),
        opt_view(r.display_name) == Some(display_name@),
        r.mods_fingerprint@ == mods_fingerprint@,
        r.covers_ready == readiness(registry@, key@, mods_fingerprint@).0,
        r.dependencies_ready == readiness(registry@, key@, mods_fingerprint@).1,
        r.ready == (r.covers_ready && r.dependencies_ready),
        r.needs_covers == !r.covers_ready,
        r.needs_dependencies == !r.dependencies_ready,
{
    let fp = mods_fingerprint.to_string();
    let (covers, deps) = match find_key(&registry.instances, key) {
        Some(i) => {
            let rec = &registry.instances[i].1;
            let same = rec.mods_fingerprint == fp;
            (rec.covers_ready && same, rec.dependencies_ready && same)
        },
        None => (false, false),
    };
    InstanceCacheStatus {
        instance_root: Some(instance_root),
        display_name: Some(display_name),
        mods_fingerprint: fp,
        covers_ready: covers,
        dependencies_ready: deps,
        ready: covers && deps,
        needs_covers: !covers,
        needs_dependencies: !deps,
    }
}

/// Which preparation steps to run for the instance under `key`: both when
/// forced, otherwise those that are not ready for the fingerprint.
pub fn plan_bootstrap_entry(registry: &InstanceRegistry, key: &String, mods_fingerprint: &str, force: bool) -> (r: (bool, bool))
    ensures
        force ==> r == (true, true),
        !force ==> r == (!readiness(registry@, key@, mods_fingerprint@).0, !readiness(
            registry@,
            key@,
            mods_fingerprint@,
        ).1),
{
    if force {
        return (true, true);
    }
    let status = cache_status_entry(registry, key, String::new(), String::new(), mods_fingerprint);
    (status.needs_covers, status.needs_dependencies)
}

// ---------------------------------------------------------------------------
// Paths
// ---------------------------------------------------------------------------

/// `Path::canonicalize`: the absolute path with links resolved, read from the
/// file system; `None` when the path cannot be resolved. Nothing is claimed of
/// the text that comes back, which depends on the disk.
#[verifier::external_body]
fn canonical_path(path: &str) -> Option<String> {
    std::path::Path::new(path).canonicalize().ok().map(|p| p.to_string_lossy().to_string())
}

/// The text after the last `/` of a path.
pub open spec fn last_part(path: Seq<char>) -> Seq<char>
    decreases path.len(),
{
    if path.len() == 0 {
        path
    } else if path.last() == '/' {
        Seq::empty()
    } else {
        last_part(path.drop_last()).push(path.last())
    }
}

/// A path written with `/` only, with no `\\`, no `:` and no leading `//`
/// (so no drive, UNC, device or verbatim prefix), reads the same on every
/// platform.
pub open spec fn plain_path(path: Seq<char>) -> bool {
    &&& !path.contains('\\')
    &&& !path.contains(':')
    &&& !(path.len() >= 2 && path[0] == '/' && path[1] == '/')
}

/// A plain path whose last part is a name: not empty, `.` or `..`.
pub open spec fn named_path(path: Seq<char>) -> bool {
    plain_path(path) && last_part(path).len() > 0 && last_part(path) != "."@ && last_part(path) != ".."@
}

/// `Path::file_name`: the last component of the path. For a plain path whose
/// last part is a name, that part; for `/` and the empty path, none. Other
/// paths follow the platform's path syntax and nothing is claimed of them.
#[verifier::external_body]
fn path_file_name(path: &str) -> (r: Option<String>)
    ensures
        named_path(path@) ==> opt_view(r) == Some(last_part(path@)),
        (path@ == "/"@ || path@.len() == 0) ==> r is None,
{
    std::path::Path::new(path).file_name().and_then(|name| name.to_str()).map(|name| name.to_string())
}

/// The key of an instance: its canonical path when it has one, else the path
/// as given.
pub open spec fn key_from(instance_root: Seq<char>, canonical: Option<Seq<char>>) -> Seq<char> {
    match canonical {
        Some(c) => c,
        None => instance_root,
    }
}

pub fn registry_key_from(instance_root: &str, canonical: Option<String>) -> (r: String)
    ensures
        r@ == key_from(instance_root@, opt_view(canonical)),
{
    match canonical {
        Some(c) => c,
        None => instance_root.to_string(),
    }
}

/// The key of an instance: the canonical form of its path as the file system
/// gives it, else the path as given. What the file system gives is not
/// stated; `registry_key_from` states the rest.
pub fn registry_key(instance_root: &str) -> (r: String) {
    let canonical = canonical_path(instance_root);
    registry_key_from(instance_root, canonical)
}

/// The name shown for an instance: the last component of its path, or a
/// generic "modpack" label.
pub open spec fn name_from(file_name: Option<Seq<char>>) -> Seq<char> {
    match file_name {
        Some(n) => n,
        None => "Сборка"@,
    }
}

pub fn display_name_from(file_name: Option<String>) -> (r: String)
    ensures
        r@ == name_from(opt_view(file_name)),
{
    match file_name {
        Some(n) => n,
        None => "Сборка".to_string(),
    }
}

pub fn display_name_for(instance_root: &str) -> (r: String)
    ensures
        named_path(instance_root@) ==> r@ == last_part(instance_root@),
        (instance_root@ == "/"@ || instance_root@.len() == 0) ==> r@ == "Сборка"@,
{
    let file_name = path_file_name(instance_root);
    display_name_from(file_name)
}

pub fn touch_opened(registry: &mut InstanceRegistry, instance_root: &str, now: &str)
    ensures
        exists|key: Seq<char>, name: Seq<char>|
            #[trigger] opened(old(registry)@, key, instance_root@, name, now@) == final(registry)@
                && (named_path(instance_root@) ==> name == last_part(instance_root@))
                && ((instance_root@ == "/"@ || instance_root@.len() == 0) ==> name == "Сборка"@),
        final(registry).version == old(registry).version,
{
    let key = registry_key(instance_root);
    let name = display_name_for(instance_root);
    let ghost kv = key@;
    let ghost nv = name@;
    touch_opened_entry(registry, key, instance_root.to_string(), name, now.to_string());
    assert(final(registry)@ == opened(old(registry)@, kv, instance_root@, nv, now@));
}

pub fn mark_prepared(
    registry: &mut InstanceRegistry,
    instance_root: &str,
    mods_fingerprint: &str,
    covers: bool,
    dependencies: bool,
    now: &str,
)
    ensures
        exists|key: Seq<char>, name: Seq<char>|
            #[trigger] prepared(
                old(registry)@,
                key,
                instance_root@,
                name,
                mods_fingerprint@,
                covers,
                dependencies,
                now@,
            ) == final(registry)@ && (named_path(instance_root@) ==> name == last_part(instance_root@)) && ((
            instance_root@ == "/"@ || instance_root@.len() == 0) ==> name == "Сборка"@),
        final(registry).version == old(registry).version,
{
    let key = registry_key(instance_root);
    let name = display_name_for(instance_root);
    let ghost kv = key@;
    let ghost nv = name@;
    mark_prepared_entry(
        registry,
        key,
        instance_root.to_string(),
        name,
        mods_fingerprint.to_string(),
        covers,
        dependencies,
        now.to_string(),
    );
    assert(final(registry)@ == prepared(old(registry)@, kv, instance_root@, nv, mods_fingerprint@, covers, dependencies, now@));
}

/// The cache status of an instance: none chosen reports nothing ready and
/// nothing needed; otherwise the readiness recorded under its key (the
/// canonical form of its path as the file system gives it, else the path as
/// given) for this fingerprint.
pub fn cache_status(registry: &InstanceRegistry, instance_root: Option<&str>, mods_fingerprint: &str) -> (r: InstanceCacheStatus)
    ensures
        r.mods_fingerprint@ == mods_fingerprint@,
        instance_root is None ==> {
            &&& r.instance_root is None
            &&& r.display_name is None
            &&& !r.covers_ready && !r.dependencies_ready && !r.ready
            &&& !r.needs_covers && !r.needs_dependencies
        },
        instance_root is Some ==> {
            &&& opt_view(r.instance_root) == Some(instance_root->0@)
            &&& named_path(instance_root->0@) ==> opt_view(r.display_name) == Some(last_part(instance_root->0@))
            &&& (instance_root->0@ == "/"@ || instance_root->0@.len() == 0) ==> opt_view(r.display_name) == Some("Сборка"@)
            &&& r.ready == (r.covers_ready && r.dependencies_ready)
            &&& r.needs_covers == !r.covers_ready
            &&& r.needs_dependencies == !r.dependencies_ready
            &&& exists|c: Option<Seq<char>>|
                r.covers_ready == readiness(registry@, #[trigger] key_from(instance_root->0@, c), mods_fingerprint@).0
                    && r.dependencies_ready == readiness(registry@, key_from(instance_root->0@, c), mods_fingerprint@).1
        },
{
    match instance_root {
        None => InstanceCacheStatus {
            instance_root: None,
            display_name: None,
            mods_fingerprint: mods_fingerprint.to_string(),
            covers_ready: false,
            dependencies_ready: false,
            ready: false,
            needs_covers: false,
            needs_dependencies: false,
        },
        Some(root) => {
            let canonical = canonical_path(root);
            let ghost c = opt_view(canonical);
            let key = registry_key_from(root, canonical);
            let name = display_name_for(root);
            let r = cache_status_entry(registry, &key, root.to_string(), name, mods_fingerprint);
            assert(r.covers_ready == readiness(registry@, key_from(root@, c), mods_fingerprint@).0);
            r
        },
    }
}

/// Which preparation steps to run for an instance: both when forced,
/// otherwise those not ready under its key (see `cache_status`) for this
/// fingerprint.
pub fn plan_bootstrap(registry: &InstanceRegistry, instance_root: &str, mods_fingerprint: &str, force: bool) -> (r: (bool, bool))
    ensures
        force ==> r == (true, true),
        !force ==> exists|c: Option<Seq<char>>|
            r == (!readiness(registry@, #[trigger] key_from(instance_root@, c), mods_fingerprint@).0, !readiness(
                registry@,
                key_from(instance_root@, c),
                mods_fingerprint@,
            ).1),
{
    if force {
        return (true, true);
    }
    let canonical = canonical_path(instance_root);
    let ghost c = opt_view(canonical);
    let key = registry_key_from(instance_root, canonical);
    let r = plan_bootstrap_entry(registry, &key, mods_fingerprint, false);
    assert(r == (!readiness(registry@, key_from(instance_root@, c), mods_fingerprint@).0, !readiness(
        registry@,
        key_from(instance_root@, c),
        mods_fingerprint@,
    ).1));
    r
}

// ---------------------------------------------------------------------------
// Laws
// ---------------------------------------------------------------------------

proof fn lemma_key_index_from_update(
    reg: Seq<(Seq<char>, RecordView)>,
    i: int,
    e: (Seq<char>, RecordView),
    k: Seq<char>,
    from: int,
)
    requires
        0 <= i < reg.len(),
        0 <= from,
        reg[i].0 == e.0,
    ensures
        key_index_from(reg.update(i, e), k, from) == key_index_from(reg, k, from),
    decreases reg.len() - from,
{
    if from < reg.len() {
        lemma_key_index_from_update(reg, i, e, k, from + 1);
    }
}

proof fn lemma_key_index_from_push(
    reg: Seq<(Seq<char>, RecordView)>,
    e: (Seq<char>, RecordView),
    k: Seq<char>,
    from: int,
)
    requires
        0 <= from <= reg.len(),
    ensures
        key_index_from(reg.push(e), k, from) == (match key_index_from(reg, k, from) {
            Some(j) => Some(j),
            None => if e.0 == k {
                Some(reg.len() as int)
            } else {
                None
            },
        }),
    decreases reg.len() - from,
{
    if from < reg.len() {
        lemma_key_index_from_push(reg, e, k, from + 1);
        assert(reg.push(e)[from] == reg[from]);
    } else {
        assert(reg.push(e)[from] == e);
        assert(key_index_from(reg.push(e), k, from + 1) is None);
    }
}

/// After a run that prepared both covers and dependencies for a fingerprint,
/// the instance is ready for that fingerprint.
pub proof fn lemma_prepared_then_ready(
    reg: Seq<(Seq<char>, RecordView)>,
    key: Seq<char>,
    root: Seq<char>,
    name: Seq<char>,
    fingerprint: Seq<char>,
    now: Seq<char>,
)
    ensures
        readiness(prepared(reg, key, root, name, fingerprint, true, true, now), key, fingerprint)
            == (true, true),
{
    lemma_key_index_from(reg, key, 0);
    let after = prepared(reg, key, root, name, fingerprint, true, true, now);
    match key_index(reg, key) {
        Some(i) => {
            let rec = after[i].1;
            lemma_key_index_from_update(reg, i, (key, rec), key, 0);
        },
        None => {
            let rec = after[reg.len() as int].1;
            lemma_key_index_from_push(reg, (key, rec), key, 0);
        },
    }
}

/// A preparation run for one fingerprint leaves nothing ready for another.
pub proof fn lemma_prepared_other_fingerprint(
    reg: Seq<(Seq<char>, RecordView)>,
    key: Seq<char>,
    root: Seq<char>,
    name: Seq<char>,
    fingerprint: Seq<char>,
    other: Seq<char>,
    covers: bool,
    dependencies: bool,
    now: Seq<char>,
)
    requires
        other != fingerprint,
    ensures
        readiness(prepared(reg, key, root, name, fingerprint, covers, dependencies, now), key, other)
            == (false, false),
{
    lemma_key_index_from(reg, key, 0);
    let after = prepared(reg, key, root, name, fingerprint, covers, dependencies, now);
    match key_index(reg, key) {
        Some(i) => {
            lemma_key_index_from_update(reg, i, (key, after[i].1), key, 0);
        },
        None => {
            lemma_key_index_from_push(reg, (key, after[reg.len() as int].1), key, 0);
        },
    }
}

/// Opening an instance never changes what is ready, for any instance.
pub proof fn lemma_opened_keeps_readiness(
    reg: Seq<(Seq<char>, RecordView)>,
    key: Seq<char>,
    root: Seq<char>,
    name: Seq<char>,
    now: Seq<char>,
    other: Seq<char>,
    fingerprint: Seq<char>,
)
    ensures
        readiness(opened(reg, key, root, name, now), other, fingerprint) == readiness(
            reg,
            other,
            fingerprint,
        ),
{
    lemma_key_index_from(reg, key, 0);
    lemma_key_index_from(reg, other, 0);
    let after = opened(reg, key, root, name, now);
    match key_index(reg, key) {
        Some(i) => {
            lemma_key_index_from_update(reg, i, (key, after[i].1), other, 0);
        },
        None => {
            lemma_key_index_from_push(reg, (key, fresh_record(root, name, now)), other, 0);
        },
    }
}

/// Opening and preparing keep one record per key.
pub proof fn lemma_updates_keep_well_formed(
    reg: Seq<(Seq<char>, RecordView)>,
    key: Seq<char>,
    root: Seq<char>,
    name: Seq<char>,
    fingerprint: Seq<char>,
    covers: bool,
    dependencies: bool,
    now: Seq<char>,
)
    requires
        well_formed(reg),
    ensures
        well_formed(opened(reg, key, root, name, now)),
        well_formed(prepared(reg, key, root, name, fingerprint, covers, dependencies, now)),
{
    lemma_key_index_from(reg, key, 0);
    let a = opened(reg, key, root, name, now);
    let b = prepared(reg, key, root, name, fingerprint, covers, dependencies, now);
    match key_index(reg, key) {
        Some(i) => {
            assert(keys(a) =~= keys(reg));
            assert(keys(b) =~= keys(reg));
        },
        None => {
            assert(keys(a) =~= keys(reg).push(key));
            assert(keys(b) =~= keys(reg).push(key));
            assert(!keys(reg).contains(key));
        },
    }
}

} // verus!
