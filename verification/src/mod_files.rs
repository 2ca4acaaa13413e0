//! Deleting and copying mod jars: which entries a request reaches, what
//! stops a deletion, and what the interface is told.
use vstd::prelude::*;
use crate::text::{chars_of, eq_str, join, join_strings, string_views};
use crate::mods::{has_key, keys_unique, ModEntry};
use crate::tags::TagFile;

verus! {

/// The keys of a request that name something: the non-empty ones, each once,
/// in the order they first come.
pub open spec fn requested_keys(keys: Seq<Seq<char>>) -> Seq<Seq<char>>
    decreases keys.len(),
{
    if keys.len() == 0 {
        Seq::empty()
    } else {
        let rest = requested_keys(keys.drop_last());
        let k = keys.last();
        if k.len() == 0 || rest.contains(k) {
            rest
        } else {
            rest.push(k)
        }
    }
}

/// The position of the first entry with `key`, looking from `i` on.
pub open spec fn entry_from(mods: Seq<ModEntry>, key: Seq<char>, i: int) -> Option<int>
    decreases mods.len() - i,
{
    if i < 0 || i >= mods.len() {
        None
    } else if mods[i].key@ == key {
        Some(i)
    } else {
        entry_from(mods, key, i + 1)
    }
}

/// The first entry of the scan with `key`.
pub open spec fn entry_of(mods: Seq<ModEntry>, key: Seq<char>) -> Option<int> {
    entry_from(mods, key, 0)
}

proof fn lemma_entry_from(mods: Seq<ModEntry>, key: Seq<char>, i: int)
    requires
        0 <= i,
    ensures
        match entry_from(mods, key, i) {
            Some(p) => i <= p < mods.len() && mods[p].key@ == key && forall|j: int| i <= j < p ==> (#[trigger] mods[j]).key@ != key,
            None => forall|j: int| i <= j < mods.len() ==> (#[trigger] mods[j]).key@ != key,
        },
    decreases mods.len() - i,
{
    if i < mods.len() && mods[i].key@ != key {
        lemma_entry_from(mods, key, i + 1);
    }
}

/// Finds the first entry with `key`.
pub fn find_entry(mods: &Vec<ModEntry>, key: &str) -> (r: Option<usize>)
    ensures
        match r {
            Some(i) => i < mods@.len() && mods@[i as int].key@ == key@ && entry_of(mods@, key@) == Some(i as int),
            None => entry_of(mods@, key@) is None,
        },
{
    let kv = chars_of(key);
    let mut i: usize = 0;
    while i < mods.len()
        invariant
            i <= mods@.len(),
            kv@ == key@,
            entry_of(mods@, key@) == entry_from(mods@, key@, i as int),
        decreases mods@.len() - i,
    {
        if eq_str(&kv, mods[i].key.as_str()) {
            return Some(i);
        }
        i = i + 1;
    }
    None
}

/// How a mod is named to the user: the display name of the entry with `key`,
/// else the key itself.
pub open spec fn shown_name(mods: Seq<ModEntry>, key: Seq<char>) -> Seq<char> {
    match entry_of(mods, key) {
        Some(i) => mods[i].display_name@,
        None => key,
    }
}

/// The mods that use a jar and are not deleted with it, by name.
pub open spec fn blockers(mods: Seq<ModEntry>, used_by: Seq<Seq<char>>, requested: Seq<Seq<char>>) -> Seq<Seq<char>>
    decreases used_by.len(),
{
    if used_by.len() == 0 {
        Seq::empty()
    } else {
        let rest = blockers(mods, used_by.drop_last(), requested);
        if requested.contains(used_by.last()) {
            rest
        } else {
            rest.push(shown_name(mods, used_by.last()))
        }
    }
}

pub open spec fn blocker_message(name: Seq<char>, blocking: Seq<Seq<char>>) -> Seq<char> {
    "Нельзя удалить "@ + name + ": используется для "@ + join(blocking, ", "@) + "."@
}

/// The refusal for the requested keys from position `i` on: the first key
/// whose mod another, kept, mod uses.
pub open spec fn refusal_from(mods: Seq<ModEntry>, requested: Seq<Seq<char>>, i: int) -> Option<Seq<char>>
    decreases requested.len() - i,
{
    if i < 0 || i >= requested.len() {
        None
    } else {
        match entry_of(mods, requested[i]) {
            Some(p) => {
                let b = blockers(mods, string_views(mods[p].used_by@), requested);
                if b.len() > 0 {
                    Some(blocker_message(mods[p].display_name@, b))
                } else {
                    refusal_from(mods, requested, i + 1)
                }
            },
            None => refusal_from(mods, requested, i + 1),
        }
    }
}

/// The entries the requested keys reach, from position `i` on.
pub open spec fn reached_from(mods: Seq<ModEntry>, requested: Seq<Seq<char>>, i: int) -> Seq<int>
    decreases requested.len() - i,
{
    if i < 0 || i >= requested.len() {
        Seq::empty()
    } else {
        match entry_of(mods, requested[i]) {
            Some(p) => seq![p] + reached_from(mods, requested, i + 1),
            None => reached_from(mods, requested, i + 1),
        }
    }
}

fn contains_view(list: &Vec<String>, x: &str) -> (r: bool)
    ensures
        r == string_views(list@).contains(x@),
{
    let xv = chars_of(x);
    let mut i: usize = 0;
    while i < list.len()
        invariant
            i <= list@.len(),
            xv@ == x@,
            forall|j: int| 0 <= j < i ==> string_views(list@)[j] != x@,
        decreases list@.len() - i,
    {
        if eq_str(&xv, list[i].as_str()) {
            assert(string_views(list@)[i as int] == x@);
            return true;
        }
        i = i + 1;
    }
    false
}

/// The non-empty keys of a request, each once.
pub fn requested_key_list(keys: &Vec<String>) -> (r: Vec<String>)
    ensures
        string_views(r@) == requested_keys(string_views(keys@)),
{
    let ghost kv = string_views(keys@);
    let mut r: Vec<String> = Vec::new();
    let mut i: usize = 0;
    while i < keys.len()
        invariant
            i <= keys@.len(),
            kv == string_views(keys@),
            string_views(r@) == requested_keys(kv.take(i as int)),
        decreases keys@.len() - i,
    {
        proof {
            assert(kv.take(i + 1).drop_last() =~= kv.take(i as int));
            assert(kv.take(i + 1).last() == keys@[i as int]@);
        }
        if chars_of(keys[i].as_str()).len() > 0 && !contains_view(&r, keys[i].as_str()) {
            let ghost before = r@;
            r.push(keys[i].clone());
            assert(string_views(r@) =~= string_views(before).push(keys@[i as int]@));
        }
        i = i + 1;
    }
    assert(kv.take(kv.len() as int) =~= kv);
    r
}

fn shown_name_exec(mods: &Vec<ModEntry>, key: &String) -> (r: String)
    ensures
        r@ == shown_name(mods@, key@),
{
    match find_entry(mods, key.as_str()) {
        Some(i) => mods[i].display_name.clone(),
        None => key.clone(),
    }
}

fn blockers_exec(mods: &Vec<ModEntry>, used_by: &Vec<String>, requested: &Vec<String>) -> (r: Vec<String>)
    ensures
        string_views(r@) == blockers(mods@, string_views(used_by@), string_views(requested@)),
{
    let ghost uv = string_views(used_by@);
    let mut r: Vec<String> = Vec::new();
    let mut i: usize = 0;
    while i < used_by.len()
        invariant
            i <= used_by@.len(),
            uv == string_views(used_by@),
            string_views(r@) == blockers(mods@, uv.take(i as int), string_views(requested@)),
        decreases used_by@.len() - i,
    {
        proof {
            assert(uv.take(i + 1).drop_last() =~= uv.take(i as int));
            assert(uv.take(i + 1).last() == used_by@[i as int]@);
        }
        if !contains_view(requested, used_by[i].as_str()) {
            let ghost before = r@;
            let name = shown_name_exec(mods, &used_by[i]);
            r.push(name);
            assert(string_views(r@) =~= string_views(before).push(shown_name(mods@, used_by@[i as int]@)));
        }
        i = i + 1;
    }
    assert(uv.take(uv.len() as int) =~= uv);
    r
}

/// The entries a delete request removes, in the order of its keys; refused
/// where it names nothing, or where a mod it deletes is used by one it keeps.
pub fn deletion_plan(mods: &Vec<ModEntry>, keys: &Vec<String>) -> (r: Result<Vec<usize>, String>)
    ensures
        ({
            let requested = requested_keys(string_views(keys@));
            if requested.len() == 0 {
                r matches Err(e) && e@ == "Нечего удалять."@
            } else {
                match refusal_from(mods@, requested, 0) {
                    Some(m) => r matches Err(e) && e@ == m,
                    None => r matches Ok(ix) && ix@.map_values(|x: usize| x as int) == reached_from(mods@, requested, 0),
                }
            }
        }),
{
    let requested = requested_key_list(keys);
    if requested.len() == 0 {
        return Err("Нечего удалять.".to_string());
    }
    let ghost rq = string_views(requested@);
    let mut i: usize = requested.len();
    let mut reached: Vec<usize> = Vec::new();
    let mut refusal: Option<String> = None;
    // Walk from the back so that each step prepends what the spec puts first.
    while i > 0
        invariant
            i <= requested@.len(),
            rq == string_views(requested@),
            match refusal {
                Some(m) => refusal_from(mods@, rq, i as int) == Some(m@),
                None => refusal_from(mods@, rq, i as int) is None && reached@.map_values(|x: usize| x as int)
                    == reached_from(mods@, rq, i as int),
            },
        decreases i,
    {
        i = i - 1;
        let key = &requested[i];
        match find_entry(mods, key.as_str()) {
            Some(p) => {
                let b = blockers_exec(mods, &mods[p].used_by, &requested);
                if b.len() > 0 {
                    let mut m = "Нельзя удалить ".to_string();
                    m.append(mods[p].display_name.as_str());
                    m.append(": используется для ");
                    m.append(join_strings(&b, ", ").as_str());
                    m.append(".");
                    refusal = Some(m);
                } else if refusal.is_none() {
                    let ghost before = reached@;
                    reached.insert(0, p);
                    assert(reached@.map_values(|x: usize| x as int) =~= seq![p as int] + before.map_values(|x: usize| x as int));
                }
            },
            None => {},
        }
    }
    match refusal {
        Some(m) => Err(m),
        None => Ok(reached),
    }
}

proof fn lemma_no_blockers(mods: Seq<ModEntry>, used_by: Seq<Seq<char>>, requested: Seq<Seq<char>>)
    requires
        blockers(mods, used_by, requested).len() == 0,
    ensures
        forall|j: int| 0 <= j < used_by.len() ==> requested.contains(#[trigger] used_by[j]),
    decreases used_by.len(),
{
    if used_by.len() > 0 {
        let rest = blockers(mods, used_by.drop_last(), requested);
        if !requested.contains(used_by.last()) {
            assert(blockers(mods, used_by, requested).len() == rest.len() + 1);
        }
        lemma_no_blockers(mods, used_by.drop_last(), requested);
        assert forall|j: int| 0 <= j < used_by.len() implies requested.contains(#[trigger] used_by[j]) by {
            if j < used_by.len() - 1 {
                assert(used_by[j] == used_by.drop_last()[j]);
            }
        }
    }
}

proof fn lemma_refusal_from_none(mods: Seq<ModEntry>, requested: Seq<Seq<char>>, i: int, k: int)
    requires
        0 <= i <= k < requested.len(),
        refusal_from(mods, requested, i) is None,
    ensures
        match entry_of(mods, requested[k]) {
            Some(p) => blockers(mods, string_views(mods[p].used_by@), requested).len() == 0,
            None => true,
        },
    decreases k - i,
{
    if i < k {
        match entry_of(mods, requested[i]) {
            Some(p) => {
                if blockers(mods, string_views(mods[p].used_by@), requested).len() == 0 {
                    lemma_refusal_from_none(mods, requested, i + 1, k);
                }
            },
            None => lemma_refusal_from_none(mods, requested, i + 1, k),
        }
    }
}

/// A deletion goes ahead only when every mod that uses a deleted mod is
/// deleted with it: no kept mod is left without a dependency.
pub proof fn lemma_deletion_keeps_no_user(mods: Seq<ModEntry>, keys: Seq<Seq<char>>, k: int, p: int, user: Seq<char>)
    requires
        refusal_from(mods, requested_keys(keys), 0) is None,
        0 <= k < requested_keys(keys).len(),
        entry_of(mods, requested_keys(keys)[k]) == Some(p),
        string_views(mods[p].used_by@).contains(user),
    ensures
        requested_keys(keys).contains(user),
{
    let requested = requested_keys(keys);
    lemma_refusal_from_none(mods, requested, 0, k);
    let ub = string_views(mods[p].used_by@);
    lemma_no_blockers(mods, ub, requested);
    let j = choose|j: int| 0 <= j < ub.len() && ub[j] == user;
    assert(requested.contains(ub[j]));
}

/// The entries a copy request reaches: one for each of its keys that the
/// scan knows, repeats included; refused where the request is empty.
pub open spec fn copied_from(mods: Seq<ModEntry>, keys: Seq<Seq<char>>, i: int) -> Seq<int>
    decreases keys.len() - i,
{
    if i < 0 || i >= keys.len() {
        Seq::empty()
    } else {
        match entry_of(mods, keys[i]) {
            Some(p) => seq![p] + copied_from(mods, keys, i + 1),
            None => copied_from(mods, keys, i + 1),
        }
    }
}

pub fn copy_plan(mods: &Vec<ModEntry>, keys: &Vec<String>) -> (r: Result<Vec<usize>, String>)
    ensures
        keys@.len() == 0 ==> (r matches Err(e) && e@ == "Нечего копировать."@),
        keys@.len() > 0 ==> (r matches Ok(ix) && ix@.map_values(|x: usize| x as int) == copied_from(mods@, string_views(keys@), 0)),
{
    if keys.len() == 0 {
        return Err("Нечего копировать.".to_string());
    }
    let ghost kv = string_views(keys@);
    let mut i: usize = keys.len();
    let mut reached: Vec<usize> = Vec::new();
    while i > 0
        invariant
            i <= keys@.len(),
            kv == string_views(keys@),
            reached@.map_values(|x: usize| x as int) == copied_from(mods@, kv, i as int),
        decreases i,
    {
        i = i - 1;
        match find_entry(mods, keys[i].as_str()) {
            Some(p) => {
                let ghost before = reached@;
                reached.insert(0, p);
                assert(reached@.map_values(|x: usize| x as int) =~= seq![p as int] + before.map_values(|x: usize| x as int));
            },
            None => {},
        }
    }
    Ok(reached)
}

/// How many jars went to the clipboard; none found is an error.
pub fn copy_result(copied: usize) -> (r: Result<u32, String>)
    ensures
        copied == 0 ==> (r matches Err(e) && e@ == "Не найдено файлов для копирования."@),
        copied > 0 ==> r == Ok::<u32, String>(copied as u32),
{
    if copied == 0 {
        Err("Не найдено файлов для копирования.".to_string())
    } else {
        Ok(copied as u32)
    }
}

/// What a deletion reports.
pub struct DeleteModFilesResult {
    pub removed: u32,
    pub filenames: Vec<String>,
}

/// The answer to a deletion that removed `filenames`; none removed is an
/// error.
pub fn deletion_result(filenames: Vec<String>) -> (r: Result<DeleteModFilesResult, String>)
    ensures
        filenames@.len() == 0 ==> (r matches Err(e) && e@ == "Не найдено файлов для удаления."@),
        filenames@.len() > 0 ==> (r matches Ok(d) && d.removed == filenames@.len() as u32 && d.filenames@ == filenames@),
{
    if filenames.len() == 0 {
        return Err("Не найдено файлов для удаления.".to_string());
    }
    let removed = filenames.len() as u32;
    Ok(DeleteModFilesResult { removed, filenames })
}

/// Drops the tag of a deleted mod.
pub fn forget_mod(tags: &mut TagFile, key: &str)
    requires
        keys_unique(old(tags).mods@),
    ensures
        final(tags).version == old(tags).version,
        final(tags).updated_at == old(tags).updated_at,
        keys_unique(final(tags).mods@),
        !has_key(final(tags).mods@, key@),
        has_key(old(tags).mods@, key@) ==> exists|i: int|
            0 <= i < old(tags).mods@.len() && (#[trigger] old(tags).mods@[i]).0@ == key@ && final(tags).mods@ == old(tags).mods@.remove(i),
        !has_key(old(tags).mods@, key@) ==> final(tags).mods@ == old(tags).mods@,
{
    let ghost before = tags.mods@;
    let (_k, _t, slot) = crate::tag_updates::take_tag(tags, key);
    proof {
        if let Some(i) = slot {
            let ii = i as int;
            assert(before[ii].0@ == key@);
            assert forall|a: int, b: int| 0 <= a < b < tags.mods@.len() implies (#[trigger] tags.mods@[a]).0@ != (#[trigger] tags.mods@[b]).0@ by {
                let a0 = if a < ii { a } else { a + 1 };
                let b0 = if b < ii { b } else { b + 1 };
                assert(tags.mods@[a] == before[a0]);
                assert(tags.mods@[b] == before[b0]);
            }
            assert forall|j: int| 0 <= j < tags.mods@.len() implies (#[trigger] tags.mods@[j]).0@ != key@ by {
                let j0 = if j < ii { j } else { j + 1 };
                assert(tags.mods@[j] == before[j0]);
            }
            assert(before[ii] == before[ii]);
        }
    }
}

} // verus!
