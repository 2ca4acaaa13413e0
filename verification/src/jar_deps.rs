//! Metadata and dependencies read from the files inside mod jars
//! (`META-INF/neoforge.mods.toml`, `META-INF/mods.toml`, `fabric.mod.json`).
use vstd::prelude::*;
use crate::text::{before_str, before_str_chars, chars_of, contains, contains_chars, eq_str, lemma_split_str_nonempty, lines, lines_chars, lower, opt_view, slice_chars, split_str, split_str_chars, starts_with, starts_with_chars, starts_with_str, string_of, string_views, to_lower, trim, trimmed, views};
use crate::mod_names::{alnum_key, display_name, normalized_match_key};

verus! {

pub fn jar_cache_version() -> (r: u8)
    ensures
        r == 5,
{
    5
}

/// What the library reports of one jar.
pub struct JarInfo {
    pub display_name: Option<String>,
    pub version: Option<String>,
    pub dependency_keys: Vec<String>,
}

/// A mod as the dependency resolver sees it.
pub struct ModRef {
    pub key: String,
    pub filename: String,
    pub display_name: String,
    pub base: String,
    pub modrinth_id: Option<String>,
}

/// Metadata kept per jar file between scans.
pub struct JarCacheEntry {
    pub mtime_ms: u64,
    pub display_name: Option<String>,
    pub version: Option<String>,
    pub mod_id: Option<String>,
    pub dependency_mod_ids: Vec<String>,
}

/// A value that is blank or an unexpanded `${...}` placeholder says nothing.
pub open spec fn clean_value(value: Seq<char>) -> Option<Seq<char>> {
    let t = trim(value);
    if t.len() == 0 || starts_with(t, "$"@) {
        None
    } else {
        Some(t)
    }
}

pub fn clean_metadata_name(value: &str) -> (r: Option<String>)
    ensures
        opt_view(r) == clean_value(value@),
{
    let t = trimmed(value);
    if t.len() == 0 || starts_with_str(&t, "$") {
        None
    } else {
        Some(string_of(&t))
    }
}

pub fn clean_metadata_version(value: &str) -> (r: Option<String>)
    ensures
        opt_view(r) == clean_value(value@),
{
    clean_metadata_name(value)
}

// ---------------------------------------------------------------------------
// TOML lines
// ---------------------------------------------------------------------------

/// Leading `=` and space characters removed.
pub open spec fn drop_assign(s: Seq<char>) -> Seq<char>
    decreases s.len(),
{
    if s.len() > 0 && (s[0] == '=' || s[0] == ' ') {
        drop_assign(s.drop_first())
    } else {
        s
    }
}

/// The text before the first occurrence of `c`.
pub open spec fn before_char(s: Seq<char>, c: char) -> Seq<char>
    decreases s.len(),
{
    if s.len() == 0 {
        s
    } else if s[0] == c {
        Seq::<char>::empty()
    } else {
        seq![s[0]] + before_char(s.drop_first(), c)
    }
}

/// The quoted value of `key = "value"` on one line: the line, trimmed, starts
/// with the key, then `=` and spaces, then a quote; the value runs to the next
/// quote or the end of the line.
pub open spec fn quoted_value(line: Seq<char>, key: Seq<char>) -> Option<Seq<char>> {
    let t = trim(line);
    if !starts_with(t, key) {
        None
    } else {
        let rest = drop_assign(t.subrange(key.len() as int, t.len() as int));
        if rest.len() > 0 && rest[0] == '"' {
            Some(before_char(rest.drop_first(), '"'))
        } else {
            None
        }
    }
}

pub fn extract_quoted_value(line: &str, key: &str) -> (r: Option<String>)
    ensures
        opt_view(r) == quoted_value(line@, key@),
{
    let t = trimmed(line);
    let kv = chars_of(key);
    if !starts_with_chars(&t, &kv) {
        return None;
    }
    let mut i: usize = kv.len();
    let ghost tail = t@.subrange(kv@.len() as int, t@.len() as int);
    assert(t@.subrange(i as int, t@.len() as int) =~= tail);
    while i < t.len() && (t[i] == '=' || t[i] == ' ')
        invariant
            kv@.len() <= i <= t@.len(),
            drop_assign(tail) == drop_assign(t@.subrange(i as int, t@.len() as int)),
        decreases t@.len() - i,
    {
        assert(t@.subrange(i as int, t@.len() as int).drop_first() =~= t@.subrange(i + 1, t@.len() as int));
        i = i + 1;
    }
    let rest = slice_chars(&t, i, t.len());
    assert(drop_assign(rest@) == rest@);
    if rest.len() == 0 || rest[0] != '"' {
        return None;
    }
    let mut j: usize = 1;
    let ghost inner = rest@.drop_first();
    assert(rest@.subrange(1, rest@.len() as int) =~= inner);
    while j < rest.len() && rest[j] != '"'
        invariant
            1 <= j <= rest@.len(),
            inner == rest@.drop_first(),
            before_char(inner, '"') == rest@.subrange(1, j as int) + before_char(
                rest@.subrange(j as int, rest@.len() as int),
                '"',
            ),
        decreases rest@.len() - j,
    {
        let ghost sub_j = rest@.subrange(j as int, rest@.len() as int);
        assert(sub_j.drop_first() =~= rest@.subrange(j + 1, rest@.len() as int));
        assert(rest@.subrange(1, j + 1) =~= rest@.subrange(1, j as int) + seq![sub_j[0]]);
        j = j + 1;
    }
    proof {
        let sub_j = rest@.subrange(j as int, rest@.len() as int);
        assert(before_char(sub_j, '"') =~= Seq::<char>::empty());
        assert(rest@.subrange(1, j as int) + Seq::<char>::empty() =~= rest@.subrange(1, j as int));
    }
    let value = slice_chars(&rest, 1, j);
    Some(string_of(&value))
}

/// The first line that holds the key, and its value.
pub open spec fn first_value(lines: Seq<Seq<char>>, key: Seq<char>) -> Option<Seq<char>>
    decreases lines.len(),
{
    if lines.len() == 0 {
        None
    } else {
        match quoted_value(lines[0], key) {
            Some(v) => Some(v),
            None => first_value(lines.drop_first(), key),
        }
    }
}

fn first_value_exec(lines: &Vec<Vec<char>>, key: &str) -> (r: Option<String>)
    ensures
        opt_view(r) == first_value(views(lines@), key@),
{
    let ghost lv = views(lines@);
    let mut i: usize = 0;
    assert(lv.subrange(0, lv.len() as int) =~= lv);
    while i < lines.len()
        invariant
            i <= lines@.len(),
            lv == views(lines@),
            first_value(lv, key@) == first_value(lv.subrange(i as int, lv.len() as int), key@),
        decreases lines@.len() - i,
    {
        let line = string_of(&lines[i]);
        assert(lv.subrange(i as int, lv.len() as int)[0] == lines@[i as int]@);
        let v = extract_quoted_value(line.as_str(), key);
        if v.is_some() {
            return v;
        }
        assert(lv.subrange(i as int, lv.len() as int).drop_first() =~= lv.subrange(i + 1, lv.len() as int));
        i = i + 1;
    }
    None
}

/// The `[[mods]]` table of a mods.toml, up to its first dependency table.
pub open spec fn mods_head(text: Seq<char>) -> Option<Seq<char>> {
    let blocks = split_str(text, "[[mods]]"@);
    if blocks.len() < 2 {
        None
    } else {
        Some(before_str(blocks[1], "[[dependencies."@))
    }
}

fn mods_head_lines(text: &str) -> (r: Option<Vec<Vec<char>>>)
    ensures
        match r {
            Some(ls) => mods_head(text@) is Some && views(ls@) == lines(mods_head(text@)->0),
            None => mods_head(text@) is None,
        },
{
    let v = chars_of(text);
    let blocks = split_str_chars(&v, "[[mods]]");
    if blocks.len() < 2 {
        return None;
    }
    let head = before_str_chars(&blocks[1], "[[dependencies.");
    Some(lines_chars(&head))
}

/// A `key = "value"` entry of the `[[mods]]` table.
pub open spec fn mods_value(text: Seq<char>, key: Seq<char>) -> Option<Seq<char>> {
    match mods_head(text) {
        Some(head) => first_value(lines(head), key),
        None => None,
    }
}

fn mods_value_exec(text: &str, key: &str) -> (r: Option<String>)
    ensures
        opt_view(r) == mods_value(text@, key@),
{
    match mods_head_lines(text) {
        Some(ls) => first_value_exec(&ls, key),
        None => None,
    }
}

pub open spec fn and_clean(v: Option<Seq<char>>) -> Option<Seq<char>> {
    match v {
        Some(x) => clean_value(x),
        None => None,
    }
}

pub fn parse_toml_display_name(text: &str) -> (r: Option<String>)
    ensures
        opt_view(r) == and_clean(mods_value(text@, "displayName"@)),
{
    match mods_value_exec(text, "displayName") {
        Some(v) => clean_metadata_name(v.as_str()),
        None => None,
    }
}

pub fn parse_toml_version(text: &str) -> (r: Option<String>)
    ensures
        opt_view(r) == and_clean(mods_value(text@, "version"@)),
{
    match mods_value_exec(text, "version") {
        Some(v) => clean_metadata_version(v.as_str()),
        None => None,
    }
}

pub fn parse_own_mod_id(text: &str) -> (r: Option<String>)
    ensures
        opt_view(r) == mods_value(text@, "modId"@),
{
    mods_value_exec(text, "modId")
}

// ---------------------------------------------------------------------------
// Dependencies
// ---------------------------------------------------------------------------

/// Mod ids that are the game or a loader, never a mod to depend on.
pub open spec fn skipped_mod_id(id: Seq<char>) -> bool {
    id == "minecraft"@ || id == "neoforge"@ || id == "forge"@ || id == "javafml"@ || id
        == "fabric"@ || id == "fabricloader"@ || id == "fabric-api"@ || id == "fml"@ || id
        == "kotlinthedivisionbyzero"@
}

fn skipped_mod_id_exec(id: &[char]) -> (r: bool)
    ensures
        r == skipped_mod_id(id@),
{
    eq_str(id, "minecraft") || eq_str(id, "neoforge") || eq_str(id, "forge") || eq_str(
        id,
        "javafml",
    ) || eq_str(id, "fabric") || eq_str(id, "fabricloader") || eq_str(id, "fabric-api")
        || eq_str(id, "fml") || eq_str(id, "kotlinthedivisionbyzero")
}

/// The value of the last line of a block that holds the key.
pub open spec fn last_value(lines: Seq<Seq<char>>, key: Seq<char>) -> Option<Seq<char>>
    decreases lines.len(),
{
    if lines.len() == 0 {
        None
    } else {
        match quoted_value(lines.last(), key) {
            Some(v) => Some(v),
            None => last_value(lines.drop_last(), key),
        }
    }
}

/// The dependency type of a block, lower-cased; `required` when not given.
pub open spec fn dependency_type(block: Seq<char>) -> Seq<char> {
    match last_value(lines(block), "type"@) {
        Some(v) => lower(v),
        None => "required"@,
    }
}

/// The mod a dependency block requires, if it is a required dependency on a
/// real mod.
pub open spec fn required_dependency(block: Seq<char>) -> Option<Seq<char>> {
    match first_value(lines(block), "modId"@) {
        Some(id) => if !skipped_mod_id(id) && dependency_type(block) == "required"@ {
            Some(id)
        } else {
            None
        },
        None => None,
    }
}

/// The required dependencies of the blocks, each once, in order.
pub open spec fn dependency_ids(blocks: Seq<Seq<char>>) -> Seq<Seq<char>>
    decreases blocks.len(),
{
    if blocks.len() == 0 {
        Seq::<Seq<char>>::empty()
    } else {
        let prev = dependency_ids(blocks.drop_last());
        match required_dependency(blocks.last()) {
            Some(id) => if prev.contains(id) {
                prev
            } else {
                prev.push(id)
            },
            None => prev,
        }
    }
}

/// The mod ids that the `[[dependencies.*]]` tables of a mods.toml require.
pub open spec fn toml_dependency_ids(text: Seq<char>) -> Seq<Seq<char>> {
    dependency_ids(split_str(text, "[[dependencies."@).drop_first())
}

/// Every id the blocks give comes from a block that names it as its `modId`,
/// is not the game or a loader, and is required: its last `type` value,
/// lower-cased, is `required`, or it has none.
proof fn lemma_dependency_ids_from_required(blocks: Seq<Seq<char>>, id: Seq<char>)
    requires
        dependency_ids(blocks).contains(id),
    ensures
        exists|k: int|
            0 <= k < blocks.len() && first_value(lines(#[trigger] blocks[k]), "modId"@) == Some(id) && !skipped_mod_id(id)
                && match last_value(lines(blocks[k]), "type"@) {
                Some(t) => lower(t) == "required"@,
                None => true,
            },
    decreases blocks.len(),
{
    let prev = dependency_ids(blocks.drop_last());
    if prev.contains(id) {
        lemma_dependency_ids_from_required(blocks.drop_last(), id);
        let k = choose|k: int|
            0 <= k < blocks.drop_last().len() && first_value(lines(#[trigger] blocks.drop_last()[k]), "modId"@) == Some(id)
                && !skipped_mod_id(id) && match last_value(lines(blocks.drop_last()[k]), "type"@) {
                Some(t) => lower(t) == "required"@,
                None => true,
            };
        assert(blocks[k] == blocks.drop_last()[k]);
    } else {
        let k = blocks.len() - 1;
        assert(blocks[k] == blocks.last());
        reveal_strlit("required");
    }
}

/// The dependencies read from a mods.toml are required ones: each comes from
/// a `[[dependencies.*]]` block that names it as its `modId`, is not the game
/// or a loader, and whose last `type` value, lower-cased, is `required`, or
/// that has no `type` line. A block with `type="optional"` (or any other
/// type) contributes nothing.
pub proof fn lemma_toml_dependencies_are_required(text: Seq<char>, id: Seq<char>)
    requires
        toml_dependency_ids(text).contains(id),
    ensures
        exists|k: int|
            0 <= k < split_str(text, "[[dependencies."@).drop_first().len() && first_value(
                lines(#[trigger] split_str(text, "[[dependencies."@).drop_first()[k]),
                "modId"@,
            ) == Some(id) && !skipped_mod_id(id) && match last_value(
                lines(split_str(text, "[[dependencies."@).drop_first()[k]),
                "type"@,
            ) {
                Some(t) => lower(t) == "required"@,
                None => true,
            },
{
    lemma_dependency_ids_from_required(split_str(text, "[[dependencies."@).drop_first(), id);
}

/// Every required block on a real mod is read: its `modId` is among the
/// dependencies.
pub proof fn lemma_required_blocks_are_read(blocks: Seq<Seq<char>>, k: int)
    requires
        0 <= k < blocks.len(),
        first_value(lines(blocks[k]), "modId"@) is Some,
        !skipped_mod_id(first_value(lines(blocks[k]), "modId"@)->0),
        match last_value(lines(blocks[k]), "type"@) {
            Some(t) => lower(t) == "required"@,
            None => true,
        },
    ensures
        dependency_ids(blocks).contains(first_value(lines(blocks[k]), "modId"@)->0),
    decreases blocks.len(),
{
    reveal_strlit("required");
    let id = first_value(lines(blocks[k]), "modId"@)->0;
    let prev = dependency_ids(blocks.drop_last());
    if k < blocks.len() - 1 {
        assert(blocks.drop_last()[k] == blocks[k]);
        lemma_required_blocks_are_read(blocks.drop_last(), k);
        let j = choose|j: int| 0 <= j < prev.len() && prev[j] == id;
        match required_dependency(blocks.last()) {
            Some(x) => if !prev.contains(x) {
                assert(prev.push(x)[j] == id);
            },
            None => {},
        }
    } else {
        assert(blocks.last() == blocks[k]);
        if !prev.contains(id) {
            assert(prev.push(id)[prev.len() as int] == id);
        }
    }
}

fn last_value_exec(lines: &Vec<Vec<char>>, key: &str) -> (r: Option<String>)
    ensures
        opt_view(r) == last_value(views(lines@), key@),
{
    let ghost lv = views(lines@);
    let mut i: usize = lines.len();
    assert(lv.subrange(0, lv.len() as int) =~= lv);
    while i > 0
        invariant
            i <= lines@.len(),
            lv == views(lines@),
            last_value(lv, key@) == last_value(lv.subrange(0, i as int), key@),
        decreases i,
    {
        let line = string_of(&lines[i - 1]);
        assert(lv.subrange(0, i as int).last() == lines@[i - 1]@);
        let v = extract_quoted_value(line.as_str(), key);
        if v.is_some() {
            return v;
        }
        assert(lv.subrange(0, i as int).drop_last() =~= lv.subrange(0, i - 1));
        i = i - 1;
    }
    None
}

fn required_dependency_exec(block: &[char]) -> (r: Option<String>)
    ensures
        opt_view(r) == required_dependency(block@),
{
    let ls = lines_chars(block);
    let id = first_value_exec(&ls, "modId");
    let ty = match last_value_exec(&ls, "type") {
        Some(v) => {
            let vv = chars_of(v.as_str());
            to_lower(&vv)
        },
        None => chars_of("required"),
    };
    match id {
        Some(id) => {
            let idv = chars_of(id.as_str());
            if !skipped_mod_id_exec(&idv) && eq_str(&ty, "required") {
                Some(id)
            } else {
                None
            }
        },
        None => None,
    }
}

fn contains_string_view(list: &Vec<String>, s: &String) -> (r: bool)
    ensures
        r == string_views(list@).contains(s@),
{
    let mut i: usize = 0;
    while i < list.len()
        invariant
            i <= list@.len(),
            forall|k: int| 0 <= k < i ==> string_views(list@)[k] != s@,
        decreases list@.len() - i,
    {
        if list[i] == *s {
            assert(string_views(list@)[i as int] == s@);
            return true;
        }
        i = i + 1;
    }
    false
}

pub fn parse_dependency_mod_ids(text: &str) -> (r: Vec<String>)
    ensures
        string_views(r@) == toml_dependency_ids(text@),
{
    let v = chars_of(text);
    let blocks = split_str_chars(&v, "[[dependencies.");
    let ghost bv = views(blocks@);
    let mut ids: Vec<String> = Vec::new();
    let mut i: usize = 1;
    proof {
        reveal_strlit("[[dependencies.");
        lemma_split_str_nonempty(v@, "[[dependencies."@);
        assert(bv.drop_first().take(0) =~= Seq::<Seq<char>>::empty());
    }
    while i < blocks.len()
        invariant
            1 <= i <= blocks@.len(),
            bv == views(blocks@),
            string_views(ids@) == dependency_ids(bv.drop_first().take(i - 1)),
        decreases blocks@.len() - i,
    {
        let ghost tk = bv.drop_first().take(i as int);
        assert(tk.drop_last() =~= bv.drop_first().take(i - 1));
        assert(tk.last() == blocks@[i as int]@);
        match required_dependency_exec(&blocks[i]) {
            Some(id) => {
                if !contains_string_view(&ids, &id) {
                    let ghost before = ids@;
                    ids.push(id);
                    assert(string_views(ids@) =~= string_views(before).push(id@));
                }
            },
            None => {},
        }
        i = i + 1;
    }
    assert(bv.drop_first().take(blocks@.len() - 1) =~= bv.drop_first());
    ids
}

// ---------------------------------------------------------------------------
// Resolving mod ids to installed mods
// ---------------------------------------------------------------------------

pub fn normalize_token(value: &str) -> (r: String)
    ensures
        r@ == alnum_key(value@),
{
    normalized_match_key(value)
}

/// A token-to-key list, first entry per token wins.
pub open spec fn registry_view(reg: Seq<(String, String)>) -> Seq<(Seq<char>, Seq<char>)> {
    reg.map_values(|e: (String, String)| (e.0@, e.1@))
}

pub open spec fn has_token(reg: Seq<(Seq<char>, Seq<char>)>, t: Seq<char>) -> bool {
    exists|i: int| 0 <= i < reg.len() && #[trigger] reg[i].0 == t
}

/// `(t, key)` appended unless `t` is empty or already listed.
pub open spec fn add_token(reg: Seq<(Seq<char>, Seq<char>)>, t: Seq<char>, key: Seq<char>) -> Seq<(Seq<char>, Seq<char>)> {
    if t.len() == 0 || has_token(reg, t) {
        reg
    } else {
        reg.push((t, key))
    }
}

/// A name registered in two spellings: trimmed lower-case, and normalised.
pub open spec fn register(reg: Seq<(Seq<char>, Seq<char>)>, token: Seq<char>, key: Seq<char>) -> Seq<(Seq<char>, Seq<char>)> {
    add_token(add_token(reg, lower(trim(token)), key), alnum_key(token), key)
}

/// Each mod registered under its Modrinth id, its base name and its display name.
pub open spec fn registry_of(mods: Seq<ModRef>) -> Seq<(Seq<char>, Seq<char>)>
    decreases mods.len(),
{
    if mods.len() == 0 {
        Seq::<(Seq<char>, Seq<char>)>::empty()
    } else {
        let prev = registry_of(mods.drop_last());
        let m = mods.last();
        let r1 = match m.modrinth_id {
            Some(id) => register(prev, id@, m.key@),
            None => prev,
        };
        register(register(r1, m.base@, m.key@), m.display_name@, m.key@)
    }
}

fn add_token_exec(reg: &mut Vec<(String, String)>, t: String, key: &String)
    ensures
        registry_view(final(reg)@) == add_token(registry_view(old(reg)@), t@, key@),
{
    if t.as_str().is_empty() {
        return;
    }
    let ghost rv = registry_view(reg@);
    let mut i: usize = 0;
    while i < reg.len()
        invariant
            i <= reg@.len(),
            reg@ == old(reg)@,
            rv == registry_view(reg@),
            forall|k: int| 0 <= k < i ==> rv[k].0 != t@,
        decreases reg@.len() - i,
    {
        if reg[i].0 == t {
            assert(rv[i as int].0 == t@);
            return;
        }
        i = i + 1;
    }
    let ghost tv = t@;
    reg.push((t, key.clone()));
    assert(registry_view(reg@) =~= rv.push((tv, key@)));
}

fn register_exec(reg: &mut Vec<(String, String)>, token: &str, key: &String)
    ensures
        registry_view(final(reg)@) == register(registry_view(old(reg)@), token@, key@),
{
    let t = trimmed(token);
    let lowered = to_lower(&t);
    add_token_exec(reg, string_of(&lowered), key);
    add_token_exec(reg, normalize_token(token), key);
}

pub fn build_registry(mods: &[ModRef]) -> (r: Vec<(String, String)>)
    ensures
        registry_view(r@) == registry_of(mods@),
{
    let mut reg: Vec<(String, String)> = Vec::new();
    let mut i: usize = 0;
    assert(registry_view(reg@) =~= Seq::<(Seq<char>, Seq<char>)>::empty());
    while i < mods.len()
        invariant
            i <= mods@.len(),
            registry_view(reg@) == registry_of(mods@.take(i as int)),
        decreases mods@.len() - i,
    {
        let m = &mods[i];
        assert(mods@.take(i + 1).drop_last() =~= mods@.take(i as int));
        assert(mods@.take(i + 1).last() == *m);
        match &m.modrinth_id {
            Some(id) => register_exec(&mut reg, id.as_str(), &m.key),
            None => {},
        }
        register_exec(&mut reg, m.base.as_str(), &m.key);
        register_exec(&mut reg, m.display_name.as_str(), &m.key);
        i = i + 1;
    }
    assert(mods@.take(mods@.len() as int) =~= mods@);
    reg
}

/// The key registered for a token (the first entry with it).
pub open spec fn token_key(reg: Seq<(Seq<char>, Seq<char>)>, t: Seq<char>) -> Option<Seq<char>>
    decreases reg.len(),
{
    if reg.len() == 0 {
        None
    } else if reg[0].0 == t {
        Some(reg[0].1)
    } else {
        token_key(reg.drop_first(), t)
    }
}

/// The key of the first entry whose token contains the needle or is contained in it.
pub open spec fn overlapping_key(reg: Seq<(Seq<char>, Seq<char>)>, needle: Seq<char>) -> Option<Seq<char>>
    decreases reg.len(),
{
    if reg.len() == 0 {
        None
    } else if contains(reg[0].0, needle) || contains(needle, reg[0].0) {
        Some(reg[0].1)
    } else {
        overlapping_key(reg.drop_first(), needle)
    }
}

/// The key of the first mod whose normalised base and display name contain the needle.
pub open spec fn mod_containing(mods: Seq<ModRef>, needle: Seq<char>) -> Option<Seq<char>>
    decreases mods.len(),
{
    if mods.len() == 0 {
        None
    } else if contains(alnum_key(mods[0].base@ + " "@ + mods[0].display_name@), needle) {
        Some(mods[0].key@)
    } else {
        mod_containing(mods.drop_first(), needle)
    }
}

/// The installed mod a dependency id refers to: exact lower-case token, then
/// exact normalised token, then a token overlapping the normalised id, then a
/// mod whose names contain it.
pub open spec fn resolved_key(mod_id: Seq<char>, reg: Seq<(Seq<char>, Seq<char>)>, mods: Seq<ModRef>) -> Option<Seq<char>> {
    let needle = alnum_key(mod_id);
    match token_key(reg, lower(mod_id)) {
        Some(k) => Some(k),
        None => if needle.len() == 0 {
            None
        } else {
            match token_key(reg, needle) {
                Some(k) => Some(k),
                None => match overlapping_key(reg, needle) {
                    Some(k) => Some(k),
                    None => mod_containing(mods, needle),
                },
            }
        },
    }
}

fn token_key_exec(reg: &Vec<(String, String)>, t: &String) -> (r: Option<String>)
    ensures
        opt_view(r) == token_key(registry_view(reg@), t@),
{
    let ghost rv = registry_view(reg@);
    let mut i: usize = 0;
    assert(rv.subrange(0, rv.len() as int) =~= rv);
    while i < reg.len()
        invariant
            i <= reg@.len(),
            rv == registry_view(reg@),
            token_key(rv, t@) == token_key(rv.subrange(i as int, rv.len() as int), t@),
        decreases reg@.len() - i,
    {
        assert(rv.subrange(i as int, rv.len() as int)[0] == rv[i as int]);
        if reg[i].0 == *t {
            return Some(reg[i].1.clone());
        }
        assert(rv.subrange(i as int, rv.len() as int).drop_first() =~= rv.subrange(i + 1, rv.len() as int));
        i = i + 1;
    }
    None
}

fn overlapping_key_exec(reg: &Vec<(String, String)>, needle: &[char]) -> (r: Option<String>)
    ensures
        opt_view(r) == overlapping_key(registry_view(reg@), needle@),
{
    let ghost rv = registry_view(reg@);
    let mut i: usize = 0;
    assert(rv.subrange(0, rv.len() as int) =~= rv);
    while i < reg.len()
        invariant
            i <= reg@.len(),
            rv == registry_view(reg@),
            overlapping_key(rv, needle@) == overlapping_key(rv.subrange(i as int, rv.len() as int), needle@),
        decreases reg@.len() - i,
    {
        assert(rv.subrange(i as int, rv.len() as int)[0] == rv[i as int]);
        let token = chars_of(reg[i].0.as_str());
        if contains_chars(&token, needle) || contains_chars(needle, &token) {
            return Some(reg[i].1.clone());
        }
        assert(rv.subrange(i as int, rv.len() as int).drop_first() =~= rv.subrange(i + 1, rv.len() as int));
        i = i + 1;
    }
    None
}

fn mod_containing_exec(mods: &[ModRef], needle: &[char]) -> (r: Option<String>)
    ensures
        opt_view(r) == mod_containing(mods@, needle@),
{
    let mut i: usize = 0;
    assert(mods@.subrange(0, mods@.len() as int) =~= mods@);
    while i < mods.len()
        invariant
            i <= mods@.len(),
            mod_containing(mods@, needle@) == mod_containing(mods@.subrange(i as int, mods@.len() as int), needle@),
        decreases mods@.len() - i,
    {
        assert(mods@.subrange(i as int, mods@.len() as int)[0] == mods@[i as int]);
        let mut hay = mods[i].base.clone();
        hay.append(" ");
        hay.append(mods[i].display_name.as_str());
        let key = normalize_token(hay.as_str());
        let kv = chars_of(key.as_str());
        if contains_chars(&kv, needle) {
            return Some(mods[i].key.clone());
        }
        assert(mods@.subrange(i as int, mods@.len() as int).drop_first() =~= mods@.subrange(i + 1, mods@.len() as int));
        i = i + 1;
    }
    None
}

pub fn resolve_mod_id(mod_id: &str, registry: &Vec<(String, String)>, mods: &[ModRef]) -> (r: Option<String>)
    ensures
        opt_view(r) == resolved_key(mod_id@, registry_view(registry@), mods@),
{
    let mv = chars_of(mod_id);
    let lower_v = to_lower(&mv);
    let lower_s = string_of(&lower_v);
    match token_key_exec(registry, &lower_s) {
        Some(k) => return Some(k),
        None => {},
    }
    let needle = normalize_token(mod_id);
    if needle.as_str().is_empty() {
        return None;
    }
    match token_key_exec(registry, &needle) {
        Some(k) => return Some(k),
        None => {},
    }
    let nv = chars_of(needle.as_str());
    match overlapping_key_exec(registry, &nv) {
        Some(k) => return Some(k),
        None => {},
    }
    mod_containing_exec(mods, &nv)
}

// ---------------------------------------------------------------------------
// Cache entries and the per-jar report
// ---------------------------------------------------------------------------

/// A cached entry must be read again when the jar changed or nothing was found
/// in it before.
pub open spec fn entry_stale(e: JarCacheEntry, mtime_ms: u64) -> bool {
    e.mtime_ms != mtime_ms || (e.display_name is None && e.version is None && e.mod_id is None
        && e.dependency_mod_ids@.len() == 0)
}

pub fn entry_needs_refresh(entry: &JarCacheEntry, mtime_ms: u64) -> (r: bool)
    ensures
        r == entry_stale(*entry, mtime_ms),
{
    entry.mtime_ms != mtime_ms || (entry.display_name.is_none() && entry.version.is_none()
        && entry.mod_id.is_none() && entry.dependency_mod_ids.len() == 0)
}

/// A fresh entry for a jar, filled from its mods.toml when it has one.
pub fn entry_from_toml(mtime_ms: u64, toml: Option<&str>) -> (r: JarCacheEntry)
    ensures
        r.mtime_ms == mtime_ms,
        toml is None ==> r.display_name is None && r.version is None && r.mod_id is None
            && r.dependency_mod_ids@.len() == 0,
        toml is Some ==> {
            &&& opt_view(r.display_name) == and_clean(mods_value(toml->0@, "displayName"@))
            &&& opt_view(r.version) == and_clean(mods_value(toml->0@, "version"@))
            &&& opt_view(r.mod_id) == mods_value(toml->0@, "modId"@)
            &&& string_views(r.dependency_mod_ids@) == toml_dependency_ids(toml->0@)
        },
{
    match toml {
        Some(text) => JarCacheEntry {
            mtime_ms,
            display_name: parse_toml_display_name(text),
            version: parse_toml_version(text),
            mod_id: parse_own_mod_id(text),
            dependency_mod_ids: parse_dependency_mod_ids(text),
        },
        None => JarCacheEntry {
            mtime_ms,
            display_name: None,
            version: None,
            mod_id: None,
            dependency_mod_ids: Vec::new(),
        },
    }
}

/// The Fabric/Quilt metadata is consulted when the mods.toml left a field
/// open and listed no dependencies.
pub open spec fn wants_json(e: JarCacheEntry) -> bool {
    (e.display_name is None || e.version is None || e.mod_id is None) && e.dependency_mod_ids@.len()
        == 0
}

pub fn entry_wants_json(entry: &JarCacheEntry) -> (r: bool)
    ensures
        r == wants_json(*entry),
{
    (entry.display_name.is_none() || entry.version.is_none() || entry.mod_id.is_none())
        && entry.dependency_mod_ids.len() == 0
}

/// Fields still open are taken from the Fabric/Quilt metadata.
pub fn fill_from_json(entry: &mut JarCacheEntry, display_name: Option<String>, version: Option<String>, mod_id: Option<String>)
    ensures
        final(entry).mtime_ms == old(entry).mtime_ms,
        final(entry).dependency_mod_ids == old(entry).dependency_mod_ids,
        opt_view(final(entry).display_name) == if old(entry).display_name is Some {
            opt_view(old(entry).display_name)
        } else {
            opt_view(display_name)
        },
        opt_view(final(entry).version) == if old(entry).version is Some {
            opt_view(old(entry).version)
        } else {
            opt_view(version)
        },
        opt_view(final(entry).mod_id) == if old(entry).mod_id is Some {
            opt_view(old(entry).mod_id)
        } else {
            opt_view(mod_id)
        },
{
    if entry.display_name.is_none() {
        entry.display_name = display_name;
    }
    if entry.version.is_none() {
        entry.version = version;
    }
    if entry.mod_id.is_none() {
        entry.mod_id = mod_id;
    }
}

/// `(t, key)` stored: the first entry with `t` takes the key, or one is added.
pub open spec fn put_token(reg: Seq<(Seq<char>, Seq<char>)>, t: Seq<char>, key: Seq<char>) -> Seq<(Seq<char>, Seq<char>)> {
    match token_index(reg, t, 0) {
        Some(i) => reg.update(i, (t, key)),
        None => reg.push((t, key)),
    }
}

pub open spec fn token_index(reg: Seq<(Seq<char>, Seq<char>)>, t: Seq<char>, i: int) -> Option<int>
    decreases reg.len() - i,
{
    if i < 0 || i >= reg.len() {
        None
    } else if reg[i].0 == t {
        Some(i)
    } else {
        token_index(reg, t, i + 1)
    }
}

proof fn lemma_token_index(reg: Seq<(Seq<char>, Seq<char>)>, t: Seq<char>, i: int)
    requires
        0 <= i,
    ensures
        match token_index(reg, t, i) {
            Some(j) => i <= j < reg.len() && reg[j].0 == t,
            None => true,
        },
    decreases reg.len() - i,
{
    if i < reg.len() && reg[i].0 != t {
        lemma_token_index(reg, t, i + 1);
    }
}

fn put_token_exec(reg: &mut Vec<(String, String)>, t: String, key: &String)
    ensures
        registry_view(final(reg)@) == put_token(registry_view(old(reg)@), t@, key@),
{
    let ghost rv = registry_view(reg@);
    let ghost tv = t@;
    let mut i: usize = 0;
    while i < reg.len()
        invariant
            i <= reg@.len(),
            reg@ == old(reg)@,
            rv == registry_view(reg@),
            tv == t@,
            token_index(rv, tv, 0) == token_index(rv, tv, i as int),
        decreases reg@.len() - i,
    {
        if reg[i].0 == t {
            proof {
                lemma_token_index(rv, tv, 0);
            }
            reg.set(i, (t, key.clone()));
            assert(registry_view(reg@) =~= rv.update(i as int, (tv, key@)));
            return;
        }
        i = i + 1;
    }
    reg.push((t, key.clone()));
    assert(registry_view(reg@) =~= rv.push((tv, key@)));
}

/// The mod id found for `key`: that of the last jar with this key that has one.
pub open spec fn mod_id_for_key(refs: Seq<ModRef>, entries: Seq<JarCacheEntry>, key: Seq<char>) -> Option<Seq<char>>
    decreases refs.len(),
{
    if refs.len() == 0 || entries.len() != refs.len() {
        None
    } else if refs.last().key@ == key && entries.last().mod_id is Some {
        opt_view(entries.last().mod_id)
    } else {
        mod_id_for_key(refs.drop_last(), entries.drop_last(), key)
    }
}

/// The registry with every jar's own mod id added (both spellings), overriding
/// name-based entries.
pub open spec fn registry_with_ids(reg: Seq<(Seq<char>, Seq<char>)>, refs: Seq<ModRef>, all_refs: Seq<ModRef>, entries: Seq<JarCacheEntry>) -> Seq<(Seq<char>, Seq<char>)>
    decreases refs.len(),
{
    if refs.len() == 0 {
        reg
    } else {
        let prev = registry_with_ids(reg, refs.drop_last(), all_refs, entries);
        let key = refs.last().key@;
        match mod_id_for_key(all_refs, entries, key) {
            Some(id) => {
                let lowered = lower(trim(id));
                let r1 = if lowered.len() > 0 {
                    put_token(prev, lowered, key)
                } else {
                    prev
                };
                let norm = alnum_key(lowered);
                if norm.len() > 0 {
                    put_token(r1, norm, key)
                } else {
                    r1
                }
            },
            None => prev,
        }
    }
}

fn mod_id_for_key_exec(refs: &[ModRef], entries: &Vec<JarCacheEntry>, key: &String) -> (r: Option<String>)
    requires
        entries@.len() == refs@.len(),
    ensures
        opt_view(r) == mod_id_for_key(refs@, entries@, key@),
{
    let mut i: usize = refs.len();
    assert(refs@.take(refs@.len() as int) =~= refs@);
    assert(entries@.take(entries@.len() as int) =~= entries@);
    while i > 0
        invariant
            i <= refs@.len(),
            entries@.len() == refs@.len(),
            mod_id_for_key(refs@, entries@, key@) == mod_id_for_key(refs@.take(i as int), entries@.take(i as int), key@),
        decreases i,
    {
        assert(refs@.take(i as int).last() == refs@[i - 1]);
        assert(entries@.take(i as int).last() == entries@[i - 1]);
        if refs[i - 1].key == *key {
            match &entries[i - 1].mod_id {
                Some(id) => return Some(id.clone()),
                None => {},
            }
        }
        assert(refs@.take(i as int).drop_last() =~= refs@.take(i - 1));
        assert(entries@.take(i as int).drop_last() =~= entries@.take(i - 1));
        i = i - 1;
    }
    None
}

/// The dependency ids of a jar resolved to installed mods, itself excluded.
pub open spec fn resolved_keys(ids: Seq<Seq<char>>, reg: Seq<(Seq<char>, Seq<char>)>, refs: Seq<ModRef>, own: Seq<char>) -> Seq<Seq<char>>
    decreases ids.len(),
{
    if ids.len() == 0 {
        Seq::<Seq<char>>::empty()
    } else {
        let prev = resolved_keys(ids.drop_last(), reg, refs, own);
        match resolved_key(ids.last(), reg, refs) {
            Some(k) => if k != own {
                prev.push(k)
            } else {
                prev
            },
            None => prev,
        }
    }
}

/// What is reported for one jar.
pub open spec fn jar_info_matches(info: JarInfo, entry: JarCacheEntry, reg: Seq<(Seq<char>, Seq<char>)>, refs: Seq<ModRef>, own: Seq<char>) -> bool {
    &&& opt_view(info.display_name) == opt_view(entry.display_name)
    &&& opt_view(info.version) == opt_view(entry.version)
    &&& string_views(info.dependency_keys@) == resolved_keys(
        string_views(entry.dependency_mod_ids@),
        reg,
        refs,
        own,
    )
}

fn clone_opt_string(o: &Option<String>) -> (r: Option<String>)
    ensures
        opt_view(r) == opt_view(*o),
{
    match o {
        Some(s) => Some(s.clone()),
        None => None,
    }
}

/// The report for every jar, given the cache entry of each (`entries[i]`
/// belongs to `refs[i]`): name and version from the entry, and its dependency
/// ids resolved against a registry of all names and mod ids.
pub fn jar_infos(refs: &[ModRef], entries: &Vec<JarCacheEntry>) -> (r: Vec<(String, JarInfo)>)
    requires
        entries@.len() == refs@.len(),
    ensures
        r@.len() == refs@.len(),
        forall|i: int|
            0 <= i < refs@.len() ==> {
                &&& (#[trigger] r@[i]).0@ == refs@[i].key@
                &&& jar_info_matches(
                    r@[i].1,
                    entries@[i],
                    registry_with_ids(registry_of(refs@), refs@, refs@, entries@),
                    refs@,
                    refs@[i].key@,
                )
            },
{
    let mut registry = build_registry(refs);
    let ghost base = registry_view(registry@);
    let mut i: usize = 0;
    assert(refs@.take(0) =~= Seq::<ModRef>::empty());
    while i < refs.len()
        invariant
            i <= refs@.len(),
            entries@.len() == refs@.len(),
            base == registry_of(refs@),
            registry_view(registry@) == registry_with_ids(base, refs@.take(i as int), refs@, entries@),
        decreases refs@.len() - i,
    {
        assert(refs@.take(i + 1).drop_last() =~= refs@.take(i as int));
        assert(refs@.take(i + 1).last() == refs@[i as int]);
        let key = &refs[i].key;
        match mod_id_for_key_exec(refs, entries, key) {
            Some(id) => {
                let t = trimmed(id.as_str());
                let lowered = to_lower(&t);
                if lowered.len() > 0 {
                    put_token_exec(&mut registry, string_of(&lowered), key);
                }
                let ls = string_of(&lowered);
                let norm = normalize_token(ls.as_str());
                if !norm.as_str().is_empty() {
                    put_token_exec(&mut registry, norm, key);
                }
            },
            None => {},
        }
        i = i + 1;
    }
    assert(refs@.take(refs@.len() as int) =~= refs@);
    let ghost full = registry_view(registry@);
    let mut out: Vec<(String, JarInfo)> = Vec::new();
    let mut j: usize = 0;
    while j < refs.len()
        invariant
            j <= refs@.len(),
            entries@.len() == refs@.len(),
            full == registry_view(registry@),
            full == registry_with_ids(registry_of(refs@), refs@, refs@, entries@),
            out@.len() == j,
            forall|k: int|
                0 <= k < j ==> {
                    &&& (#[trigger] out@[k]).0@ == refs@[k].key@
                    &&& jar_info_matches(out@[k].1, entries@[k], full, refs@, refs@[k].key@)
                },
        decreases refs@.len() - j,
    {
        let entry = &entries[j];
        let own = &refs[j].key;
        let ghost idv = string_views(entry.dependency_mod_ids@);
        let mut keys: Vec<String> = Vec::new();
        let mut k: usize = 0;
        while k < entry.dependency_mod_ids.len()
            invariant
                k <= entry.dependency_mod_ids@.len(),
                idv == string_views(entry.dependency_mod_ids@),
                full == registry_view(registry@),
                string_views(keys@) == resolved_keys(idv.take(k as int), full, refs@, own@),
            decreases entry.dependency_mod_ids@.len() - k,
        {
            assert(idv.take(k + 1).drop_last() =~= idv.take(k as int));
            assert(idv.take(k + 1).last() == entry.dependency_mod_ids@[k as int]@);
            match resolve_mod_id(entry.dependency_mod_ids[k].as_str(), &registry, refs) {
                Some(found) => {
                    if found != *own {
                        let ghost before = keys@;
                        let ghost fv = found@;
                        keys.push(found);
                        assert(string_views(keys@) =~= string_views(before).push(fv));
                    }
                },
                None => {},
            }
            k = k + 1;
        }
        assert(idv.take(idv.len() as int) =~= idv);
        let info = JarInfo {
            display_name: clone_opt_string(&entry.display_name),
            version: clone_opt_string(&entry.version),
            dependency_keys: keys,
        };
        out.push((own.clone(), info));
        j = j + 1;
    }
    out
}

} // verus!
