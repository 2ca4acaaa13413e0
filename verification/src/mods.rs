//! The mod list of an instance: stable keys, sides, sources and counts.
use vstd::prelude::*;
use vstd::string::StringExecFns;
use crate::tags::{ModTags, TagFile};
use crate::mod_names::{display_name, display_name_from_filename, installed_version, installed_version_from_filename};
use crate::provider_labels::{manual_mode, manual_tags_for, provider_labels_of, provider_library, provider_side, provider_tags_for, provider_technical, side_mode_for, stored};
use crate::text::{char_is_alnum, char_lower, chars_of, contains, ends_with, ends_with_str, eq_chars, eq_str, is_alnum, lemma_seq_lt_asymmetric, lemma_seq_lt_irreflexive, lemma_seq_lt_total, lemma_seq_lt_transitive, lower, lower_char, opt_view, seq_lt, str_lt, string_of, string_views, trim, trim_char, trim_char_chars, trim_end_str, trim_end_str_chars, trim_string, trimmed};

verus! {

/// The side of a mod whose side nobody has determined yet.
pub const UNKNOWN_SIDE: &'static str = "unknown";

pub open spec fn unknown_side() -> Seq<char> {
    seq!['u', 'n', 'k', 'n', 'o', 'w', 'n']
}

pub fn unknown_side_string() -> (r: String)
    ensures
        r@ == unknown_side(),
{
    let r = "unknown".to_string();
    proof {
        reveal_strlit("unknown");
        assert(r@ =~= unknown_side());
    }
    r
}

/// `client` and `server` stay; everything else means both sides.
pub open spec fn normalized_side(side: Seq<char>) -> Seq<char> {
    if side == "client"@ {
        "client"@
    } else if side == "server"@ {
        "server"@
    } else {
        "universal"@
    }
}

pub fn normalize_side(side: &str) -> (r: String)
    ensures
        r@ == normalized_side(side@),
{
    let v = chars_of(side);
    if eq_str(&v, "client") {
        "client".to_string()
    } else if eq_str(&v, "server") {
        "server".to_string()
    } else {
        "universal".to_string()
    }
}

/// What a packwiz index file (`<slug>.pw.toml`) says about one jar.
pub struct IndexInfo {
    pub index_file: String,
    pub slug: String,
    pub name: Option<String>,
    pub side: Option<String>,
    pub modrinth_id: Option<String>,
    pub modrinth_version_id: Option<String>,
    pub curseforge_id: Option<String>,
    pub curseforge_file_id: Option<String>,
}

/// The index entry for a jar, from the index file's name and the fields read
/// from it; only `*.pw.toml` files that name a jar count.
pub fn index_entry(
    index_file: &str,
    filename: Option<String>,
    name: Option<String>,
    side: Option<String>,
    modrinth_id: Option<String>,
    modrinth_version_id: Option<String>,
    curseforge_id: Option<String>,
    curseforge_file_id: Option<String>,
) -> (r: Option<(String, IndexInfo)>)
    ensures
        r is Some <==> (ends_with(index_file@, ".pw.toml"@) && filename is Some),
        r matches Some(e) ==> {
            &&& Some(e.0@) == opt_view(filename)
            &&& e.1.index_file@ == index_file@
            &&& e.1.slug@ == trim_end_str(index_file@, ".pw.toml"@)
            &&& opt_view(e.1.name) == opt_view(name)
            &&& opt_view(e.1.side) == opt_view(side)
            &&& opt_view(e.1.modrinth_id) == opt_view(modrinth_id)
            &&& opt_view(e.1.modrinth_version_id) == opt_view(modrinth_version_id)
            &&& opt_view(e.1.curseforge_id) == opt_view(curseforge_id)
            &&& opt_view(e.1.curseforge_file_id) == opt_view(curseforge_file_id)
        },
{
    let v = chars_of(index_file);
    if !ends_with_str(&v, ".pw.toml") {
        return None;
    }
    match filename {
        None => None,
        Some(f) => {
            let slug = trim_end_str_chars(&v, ".pw.toml");
            Some(
                (
                    f,
                    IndexInfo {
                        index_file: index_file.to_string(),
                        slug: string_of(&slug),
                        name,
                        side,
                        modrinth_id,
                        modrinth_version_id,
                        curseforge_id,
                        curseforge_file_id,
                    },
                ),
            )
        },
    }
}

// ---------------------------------------------------------------------------
// Keys
// ---------------------------------------------------------------------------

pub open spec fn slug_step(acc: (Seq<char>, bool), c: char) -> (Seq<char>, bool) {
    if is_alnum(c) {
        (acc.0.push(lower_char(c)), false)
    } else if !acc.1 {
        (acc.0.push('-'), true)
    } else {
        acc
    }
}

/// ASCII letters and digits lower-cased, every run of other characters one dash.
pub open spec fn slug_scan(s: Seq<char>) -> (Seq<char>, bool)
    decreases s.len(),
{
    if s.len() == 0 {
        (Seq::<char>::empty(), false)
    } else {
        slug_step(slug_scan(s.drop_last()), s.last())
    }
}

/// The slug of a jar's file name, without `.jar` and outer dashes.
pub open spec fn slug_of(filename: Seq<char>) -> Seq<char> {
    trim_char(slug_scan(trim_end_str(filename, ".jar"@)).0, '-')
}

pub fn slug_from_filename(filename: &str) -> (r: String)
    ensures
        r@ == slug_of(filename@),
{
    let v = chars_of(filename);
    let base = trim_end_str_chars(&v, ".jar");
    let mut out: Vec<char> = Vec::new();
    let mut previous_dash = false;
    let mut i: usize = 0;
    while i < base.len()
        invariant
            i <= base@.len(),
            base@ == trim_end_str(filename@, ".jar"@),
            (out@, previous_dash) == slug_scan(base@.take(i as int)),
        decreases base@.len() - i,
    {
        assert(base@.take(i + 1).drop_last() =~= base@.take(i as int));
        let ch = base[i];
        if char_is_alnum(ch) {
            out.push(char_lower(ch));
            previous_dash = false;
        } else if !previous_dash {
            out.push('-');
            previous_dash = true;
        }
        i = i + 1;
    }
    assert(base@.take(base@.len() as int) =~= base@);
    let t = trim_char_chars(&out, '-');
    string_of(&t)
}

/// `prefix` followed by `rest`.
fn prefixed(prefix: &str, rest: &str) -> (r: String)
    ensures
        r@ == prefix@ + rest@,
{
    let mut s = prefix.to_string();
    s.append(rest);
    s
}

pub open spec fn info_modrinth(info: Option<IndexInfo>) -> Option<Seq<char>> {
    match info {
        Some(i) => opt_view(i.modrinth_id),
        None => None,
    }
}

pub open spec fn info_curseforge(info: Option<IndexInfo>) -> Option<Seq<char>> {
    match info {
        Some(i) => opt_view(i.curseforge_id),
        None => None,
    }
}

/// `modrinth:<id>` or `curseforge:<id>` from the index, else `manual:<slug>`.
pub open spec fn stable_key_of(filename: Seq<char>, info: Option<IndexInfo>) -> Seq<char> {
    match info_modrinth(info) {
        Some(id) => "modrinth:"@ + id,
        None => match info_curseforge(info) {
            Some(id) => "curseforge:"@ + id,
            None => "manual:"@ + slug_of(filename),
        },
    }
}

pub fn stable_key(filename: &str, info: Option<&IndexInfo>) -> (r: String)
    ensures
        r@ == stable_key_of(filename@, match info {
            Some(i) => Some(*i),
            None => None,
        }),
{
    if let Some(i) = info {
        if let Some(id) = &i.modrinth_id {
            return prefixed("modrinth:", id.as_str());
        }
        if let Some(id) = &i.curseforge_id {
            return prefixed("curseforge:", id.as_str());
        }
    }
    let slug = slug_from_filename(filename);
    prefixed("manual:", slug.as_str())
}

/// A stored tag value, trimmed; blank means absent.
pub open spec fn cleaned(value: Seq<char>) -> Option<Seq<char>> {
    if trim(value).len() == 0 {
        None
    } else {
        Some(trim(value))
    }
}

pub fn clean_tag_value(value: &str) -> (r: Option<String>)
    ensures
        opt_view(r) == cleaned(value@),
{
    let t = trim_string(value);
    if t.as_str().is_empty() {
        None
    } else {
        Some(t)
    }
}

/// Indexed mods keep their provider key; other jars take the key an alias
/// already points to, else their own stable key.
pub open spec fn key_for(filename: Seq<char>, info: Option<IndexInfo>, alias_owner: Option<Seq<char>>) -> Seq<
    char,
> {
    if info_modrinth(info) is Some || info_curseforge(info) is Some {
        stable_key_of(filename, info)
    } else {
        match alias_owner {
            Some(k) => k,
            None => stable_key_of(filename, info),
        }
    }
}

pub fn key_for_file(filename: &str, info: Option<&IndexInfo>, alias_owner: &Option<String>) -> (r: String)
    ensures
        r@ == key_for(filename@, info_of(info), opt_view(*alias_owner)),
{
    if let Some(i) = info {
        if i.modrinth_id.is_some() || i.curseforge_id.is_some() {
            return stable_key(filename, info);
        }
    }
    match alias_owner {
        Some(k) => k.clone(),
        None => stable_key(filename, info),
    }
}

// ---------------------------------------------------------------------------
// Sources
// ---------------------------------------------------------------------------

/// The page of a project on its provider's site.
pub open spec fn source_url_of(
    source: Seq<char>,
    modrinth_id: Option<Seq<char>>,
    curseforge_slug: Option<Seq<char>>,
) -> Option<Seq<char>> {
    if source == "modrinth"@ {
        match modrinth_id {
            Some(id) => Some("https://modrinth.com/mod/"@ + id),
            None => None,
        }
    } else if source == "curseforge"@ {
        match curseforge_slug {
            Some(slug) => Some("https://www.curseforge.com/minecraft/mc-mods/"@ + slug),
            None => None,
        }
    } else {
        None
    }
}

pub fn source_url(source: &str, modrinth_id: Option<&str>, curseforge_slug: Option<&str>) -> (r:
    Option<String>)
    ensures
        opt_view(r) == source_url_of(
            source@,
            match modrinth_id {
                Some(s) => Some(s@),
                None => None,
            },
            match curseforge_slug {
                Some(s) => Some(s@),
                None => None,
            },
        ),
{
    let v = chars_of(source);
    if eq_str(&v, "modrinth") {
        match modrinth_id {
            Some(id) => Some(prefixed("https://modrinth.com/mod/", id)),
            None => None,
        }
    } else if eq_str(&v, "curseforge") {
        match curseforge_slug {
            Some(slug) => Some(prefixed("https://www.curseforge.com/minecraft/mc-mods/", slug)),
            None => None,
        }
    } else {
        None
    }
}

// ---------------------------------------------------------------------------
// Sorted key lists
// ---------------------------------------------------------------------------

/// Strictly increasing in `String` order, so also without repeats.
pub open spec fn sorted_strict(s: Seq<Seq<char>>) -> bool {
    forall|i: int, j: int| 0 <= i < j < s.len() ==> seq_lt(#[trigger] s[i], #[trigger] s[j])
}

pub proof fn lemma_contains_push(s: Seq<Seq<char>>, x: Seq<char>, k: Seq<char>)
    ensures
        s.push(x).contains(k) <==> (s.contains(k) || k == x),
{
    if s.push(x).contains(k) {
        let j = choose|j: int| 0 <= j < s.push(x).len() && s.push(x)[j] == k;
        if j < s.len() {
            assert(s[j] == k);
        }
    }
    if s.contains(k) {
        let j = choose|j: int| 0 <= j < s.len() && s[j] == k;
        assert(s.push(x)[j] == k);
    }
    if k == x {
        assert(s.push(x)[s.len() as int] == k);
    }
}

/// Inserts `key` into a strictly increasing list, unless it is there already.
fn insert_sorted(v: &mut Vec<String>, key: String)
    requires
        sorted_strict(string_views(old(v)@)),
    ensures
        sorted_strict(string_views(final(v)@)),
        forall|k: Seq<char>|
            string_views(final(v)@).contains(k) <==> (string_views(old(v)@).contains(k) || k
                == key@),
{
    let ghost ov = string_views(v@);
    let mut i: usize = 0;
    while i < v.len() && str_lt(v[i].as_str(), key.as_str())
        invariant
            i <= v@.len(),
            ov == string_views(v@),
            sorted_strict(ov),
            forall|j: int| 0 <= j < i ==> seq_lt(#[trigger] ov[j], key@),
        decreases v@.len() - i,
    {
        i = i + 1;
    }
    if i < v.len() && v[i] == key {
        assert(ov[i as int] == key@);
        return;
    }
    proof {
        if i < ov.len() {
            lemma_seq_lt_total(ov[i as int], key@);
            assert(seq_lt(key@, ov[i as int]));
        }
    }
    let ghost kv = key@;
    v.insert(i, key);
    proof {
        let nv = string_views(v@);
        assert(nv =~= ov.insert(i as int, kv));
        assert forall|a: int, b: int| 0 <= a < b < nv.len() implies seq_lt(
            #[trigger] nv[a],
            #[trigger] nv[b],
        ) by {
            if b < i {
            } else if b == i {
            } else if a < i {
                assert(nv[b] == ov[b - 1]);
                lemma_seq_lt_total(ov[i as int], kv);
                if b - 1 > i {
                    lemma_seq_lt_transitive(kv, ov[i as int], ov[b - 1]);
                }
                lemma_seq_lt_transitive(ov[a], kv, ov[b - 1]);
            } else if a == i {
                if b - 1 > i {
                    lemma_seq_lt_transitive(kv, ov[i as int], ov[b - 1]);
                }
            } else {
                assert(nv[a] == ov[a - 1]);
                assert(nv[b] == ov[b - 1]);
            }
        }
        assert forall|k: Seq<char>| nv.contains(k) <==> (ov.contains(k) || k == kv) by {
            if nv.contains(k) {
                let j = choose|j: int| 0 <= j < nv.len() && nv[j] == k;
                if j < i {
                    assert(ov[j] == k);
                } else if j > i {
                    assert(ov[j - 1] == k);
                }
            }
            if ov.contains(k) {
                let j = choose|j: int| 0 <= j < ov.len() && ov[j] == k;
                if j < i {
                    assert(nv[j] == k);
                } else {
                    assert(nv[j + 1] == k);
                }
            }
            if k == kv {
                assert(nv[i as int] == k);
            }
        }
    }
}

/// All keys of all lists, in order.
pub open spec fn all_keys(lists: Seq<Seq<Seq<char>>>) -> Seq<Seq<char>>
    decreases lists.len(),
{
    if lists.len() == 0 {
        Seq::<Seq<char>>::empty()
    } else {
        all_keys(lists.drop_last()) + lists.last()
    }
}

pub open spec fn list_views(lists: Seq<&[String]>) -> Seq<Seq<Seq<char>>> {
    lists.map_values(|l: &[String]| string_views(l@))
}

/// The keys of all lists, in order.
fn flatten_keys(lists: &[&[String]]) -> (r: Vec<String>)
    ensures
        string_views(r@) == all_keys(list_views(lists@)),
{
    let ghost lv = list_views(lists@);
    let mut r: Vec<String> = Vec::new();
    let mut a: usize = 0;
    assert(lv.take(0) =~= Seq::<Seq<Seq<char>>>::empty());
    while a < lists.len()
        invariant
            a <= lists@.len(),
            lv == list_views(lists@),
            string_views(r@) == all_keys(lv.take(a as int)),
        decreases lists@.len() - a,
    {
        let list = lists[a];
        let ghost before = string_views(r@);
        let mut b: usize = 0;
        assert(lv[a as int] == string_views(list@));
        assert(before + string_views(list@).take(0) =~= before);
        while b < list.len()
            invariant
                b <= list@.len(),
                string_views(r@) == before + string_views(list@).take(b as int),
            decreases list@.len() - b,
        {
            let ghost prev = r@;
            r.push(list[b].clone());
            assert(string_views(r@) =~= string_views(prev).push(list@[b as int]@));
            assert(before + string_views(list@).take(b + 1) =~= (before + string_views(
                list@,
            ).take(b as int)).push(list@[b as int]@));
            b = b + 1;
        }
        assert(string_views(list@).take(list@.len() as int) =~= string_views(list@));
        assert(lv.take(a + 1).drop_last() =~= lv.take(a as int));
        a = a + 1;
    }
    assert(lv.take(lists@.len() as int) =~= lv);
    r
}

/// The non-empty keys of two lists, each once, sorted.
pub fn merge_two(a: &Vec<String>, b: &Vec<String>) -> (r: Vec<String>)
    ensures
        sorted_strict(string_views(r@)),
        holds_nonempty_of(string_views(r@), string_views(a@) + string_views(b@)),
{
    let lists: [&[String]; 2] = [a.as_slice(), b.as_slice()];
    let r = merge_keys(&lists);
    proof {
        let lv = list_views(lists@);
        assert(lv.len() == 2);
        assert(lv[0] == string_views(a@));
        assert(lv[1] == string_views(b@));
        reveal_with_fuel(all_keys, 3);
        assert(lv.drop_last().drop_last() =~= Seq::<Seq<Seq<char>>>::empty());
        assert(all_keys(lv) =~= string_views(a@) + string_views(b@));
    }
    r
}

/// `r` holds exactly the non-empty keys of `keys`.
pub open spec fn holds_nonempty_of(r: Seq<Seq<char>>, keys: Seq<Seq<char>>) -> bool {
    forall|k: Seq<char>| r.contains(k) <==> (k.len() > 0 && keys.contains(k))
}

/// The non-empty keys of all lists, each once, sorted.
pub fn merge_keys(lists: &[&[String]]) -> (r: Vec<String>)
    ensures
        sorted_strict(string_views(r@)),
        holds_nonempty_of(string_views(r@), all_keys(list_views(lists@))),
{
    let flat = flatten_keys(lists);
    let ghost fv = string_views(flat@);
    let mut r: Vec<String> = Vec::new();
    let mut i: usize = 0;
    proof {
        assert forall|k: Seq<char>| string_views(r@).contains(k) <==> (k.len() > 0 && fv.take(
            0,
        ).contains(k)) by {
            assert(fv.take(0).len() == 0);
            assert(string_views(r@).len() == 0);
        }
    }
    while i < flat.len()
        invariant
            i <= flat@.len(),
            fv == string_views(flat@),
            sorted_strict(string_views(r@)),
            holds_nonempty_of(string_views(r@), fv.take(i as int)),
        decreases flat@.len() - i,
    {
        let ghost old_r = string_views(r@);
        let ghost kv = flat@[i as int]@;
        if !flat[i].as_str().is_empty() {
            insert_sorted(&mut r, flat[i].clone());
        }
        proof {
            assert(fv.take(i + 1) =~= fv.take(i as int).push(kv));
            assert forall|k: Seq<char>| string_views(r@).contains(k) <==> (k.len() > 0 && fv.take(
                i + 1,
            ).contains(k)) by {
                lemma_contains_push(fv.take(i as int), kv, k);
            }
        }
        i = i + 1;
    }
    assert(fv.take(flat@.len() as int) =~= fv);
    r
}

// ---------------------------------------------------------------------------
// Entries of the mod list
// ---------------------------------------------------------------------------

/// One jar of the mod list, as the interface shows it.
pub struct ModEntry {
    pub key: String,
    pub filename: String,
    pub base: String,
    pub display_name: String,
    pub display_name_locked: bool,
    pub installed_version: Option<String>,
    pub side: String,
    pub library: bool,
    pub technical: bool,
    pub description: String,
    pub dependencies: Vec<String>,
    pub resolved_dependencies: Vec<String>,
    pub jar_dependencies: Vec<String>,
    pub used_by: Vec<String>,
    pub cover_url: Option<String>,
    pub cover_path: Option<String>,
    pub cover_manual: bool,
    pub cover_modified_at: Option<u64>,
    pub source: String,
    pub source_url: Option<String>,
    pub has_index: bool,
    pub has_tags: bool,
    pub index_file: Option<String>,
    pub pack_side: Option<String>,
    pub modrinth_id: Option<String>,
    pub modrinth_version_id: Option<String>,
    pub curseforge_id: Option<String>,
    pub curseforge_file_id: Option<String>,
    pub duplicate: bool,
    pub modified_at: String,
    pub side_mode: String,
    pub manual_side: String,
    pub manual_library: bool,
    pub manual_technical: bool,
    pub provider_side: String,
    pub provider_library: bool,
    pub provider_technical: bool,
    pub disabled: bool,
}

/// Counts over the mod list.
pub struct ModStats {
    pub total: usize,
    pub client: usize,
    pub universal: usize,
    pub server: usize,
    pub no_index: usize,
    pub tagged: usize,
}

pub open spec fn count_side(s: Seq<ModEntry>, side: Seq<char>) -> nat
    decreases s.len(),
{
    if s.len() == 0 {
        0
    } else {
        count_side(s.drop_last(), side) + if s.last().side@ == side {
            1nat
        } else {
            0nat
        }
    }
}

/// Mods that no provider identifies: added by hand or known from the index only.
pub open spec fn count_unidentified(s: Seq<ModEntry>) -> nat
    decreases s.len(),
{
    if s.len() == 0 {
        0
    } else {
        count_unidentified(s.drop_last()) + if s.last().source@ == "manual"@ || s.last().source@
            == "index"@ {
            1nat
        } else {
            0nat
        }
    }
}

pub open spec fn count_tagged(s: Seq<ModEntry>) -> nat
    decreases s.len(),
{
    if s.len() == 0 {
        0
    } else {
        count_tagged(s.drop_last()) + if s.last().has_tags {
            1nat
        } else {
            0nat
        }
    }
}

pub proof fn lemma_counts_bounded(s: Seq<ModEntry>, side: Seq<char>)
    ensures
        count_side(s, side) <= s.len(),
        count_unidentified(s) <= s.len(),
        count_tagged(s) <= s.len(),
    decreases s.len(),
{
    if s.len() > 0 {
        lemma_counts_bounded(s.drop_last(), side);
    }
}

pub fn stats_for(mods: &[ModEntry]) -> (r: ModStats)
    ensures
        r.total == mods@.len(),
        r.client == count_side(mods@, "client"@),
        r.universal == count_side(mods@, "universal"@),
        r.server == count_side(mods@, "server"@),
        r.no_index == count_unidentified(mods@),
        r.tagged == count_tagged(mods@),
{
    let mut r = ModStats { total: mods.len(), client: 0, universal: 0, server: 0, no_index: 0, tagged: 0 };
    let mut i: usize = 0;
    while i < mods.len()
        invariant
            i <= mods@.len(),
            r.total == mods@.len(),
            r.client == count_side(mods@.take(i as int), "client"@),
            r.universal == count_side(mods@.take(i as int), "universal"@),
            r.server == count_side(mods@.take(i as int), "server"@),
            r.no_index == count_unidentified(mods@.take(i as int)),
            r.tagged == count_tagged(mods@.take(i as int)),
        decreases mods@.len() - i,
    {
        proof {
            assert(mods@.take(i + 1).drop_last() =~= mods@.take(i as int));
            lemma_counts_bounded(mods@.take(i as int), "client"@);
            lemma_counts_bounded(mods@.take(i as int), "universal"@);
            lemma_counts_bounded(mods@.take(i as int), "server"@);
        }
        let item = &mods[i];
        let side = chars_of(item.side.as_str());
        let source = chars_of(item.source.as_str());
        if eq_str(&side, "client") {
            r.client = r.client + 1;
        }
        if eq_str(&side, "universal") {
            r.universal = r.universal + 1;
        }
        if eq_str(&side, "server") {
            r.server = r.server + 1;
        }
        if eq_str(&source, "manual") || eq_str(&source, "index") {
            r.no_index = r.no_index + 1;
        }
        if item.has_tags {
            r.tagged = r.tagged + 1;
        }
        i = i + 1;
    }
    assert(mods@.take(mods@.len() as int) =~= mods@);
    r
}

pub open spec fn first_some(a: Option<Seq<char>>, b: Option<Seq<char>>) -> Option<Seq<char>> {
    match a {
        Some(x) => Some(x),
        None => b,
    }
}

pub open spec fn info_of(info: Option<&IndexInfo>) -> Option<IndexInfo> {
    match info {
        Some(i) => Some(*i),
        None => None,
    }
}

/// Where a jar comes from when its tags say nothing: the provider its index
/// entry names, the index alone, or nowhere.
pub open spec fn default_source_of(info: Option<IndexInfo>) -> Seq<char> {
    if info_modrinth(info) is Some {
        "modrinth"@
    } else if info_curseforge(info) is Some {
        "curseforge"@
    } else if info is Some {
        "index"@
    } else {
        "manual"@
    }
}

pub fn default_source(info: Option<&IndexInfo>) -> (r: String)
    ensures
        r@ == default_source_of(info_of(info)),
{
    match info {
        Some(i) => {
            if i.modrinth_id.is_some() {
                "modrinth".to_string()
            } else if i.curseforge_id.is_some() {
                "curseforge".to_string()
            } else {
                "index".to_string()
            }
        },
        None => "manual".to_string(),
    }
}

pub open spec fn entry_modrinth_id(tag: ModTags, info: Option<IndexInfo>) -> Option<Seq<char>> {
    first_some(cleaned(tag.modrinth_id@), info_modrinth(info))
}

pub open spec fn entry_modrinth_version_id(tag: ModTags, info: Option<IndexInfo>) -> Option<Seq<char>> {
    first_some(
        cleaned(tag.modrinth_version_id@),
        match info {
            Some(i) => opt_view(i.modrinth_version_id),
            None => None,
        },
    )
}

pub open spec fn entry_curseforge_id(tag: ModTags, info: Option<IndexInfo>) -> Option<Seq<char>> {
    first_some(cleaned(tag.curseforge_id@), info_curseforge(info))
}

pub open spec fn entry_curseforge_file_id(tag: ModTags, info: Option<IndexInfo>) -> Option<Seq<char>> {
    first_some(
        cleaned(tag.curseforge_file_id@),
        match info {
            Some(i) => opt_view(i.curseforge_file_id),
            None => None,
        },
    )
}

pub open spec fn entry_curseforge_slug(tag: ModTags, info: Option<IndexInfo>) -> Option<Seq<char>> {
    first_some(
        cleaned(tag.curseforge_slug@),
        match info {
            Some(i) => Some(i.slug@),
            None => None,
        },
    )
}

/// The stored source, when the provider id it needs is known; else the default.
pub open spec fn entry_source(tag: ModTags, info: Option<IndexInfo>) -> Seq<char> {
    if tag.source@ == "modrinth"@ && entry_modrinth_id(tag, info) is Some {
        "modrinth"@
    } else if tag.source@ == "curseforge"@ && entry_curseforge_id(tag, info) is Some {
        "curseforge"@
    } else {
        default_source_of(info)
    }
}

pub open spec fn entry_side(tag: ModTags) -> Seq<char> {
    normalized_side(
        if tag.side@.len() == 0 {
            "universal"@
        } else {
            tag.side@
        },
    )
}

/// A name set by hand, else the provider's title, else the index's name.
pub open spec fn fixed_name(tag: ModTags, info: Option<IndexInfo>) -> Option<Seq<char>> {
    first_some(
        cleaned(tag.display_name@),
        first_some(
            cleaned(tag.provider_title@),
            match info {
                Some(i) => opt_view(i.name),
                None => None,
            },
        ),
    )
}

pub open spec fn entry_display_name(filename: Seq<char>, tag: ModTags, info: Option<IndexInfo>) -> Seq<
    char,
> {
    match fixed_name(tag, info) {
        Some(n) => n,
        None => display_name(filename),
    }
}

/// `e` is the list entry for the jar `filename` under `key`, with its tags,
/// its index entry, whether another jar has the same name, and its mtime.
pub open spec fn is_entry_for(
    e: ModEntry,
    filename: Seq<char>,
    info: Option<IndexInfo>,
    key: Seq<char>,
    tag: ModTags,
    duplicate: bool,
    modified_at: Seq<char>,
) -> bool {
    &&& e.key@ == key
    &&& e.filename@ == filename
    &&& e.base@ == filename
    &&& e.display_name@ == entry_display_name(filename, tag, info)
    &&& e.display_name_locked == fixed_name(tag, info) is Some
    &&& opt_view(e.installed_version) == installed_version(filename)
    &&& e.side@ == entry_side(tag)
    &&& e.library == tag.library
    &&& e.technical == tag.technical
    &&& e.description@ == tag.description@
    &&& string_views(e.dependencies@) == string_views(tag.dependencies@)
    &&& sorted_strict(string_views(e.resolved_dependencies@))
    &&& holds_nonempty_of(string_views(e.resolved_dependencies@), string_views(tag.dependencies@))
    &&& e.jar_dependencies@.len() == 0
    &&& e.used_by@.len() == 0
    &&& e.cover_url is None
    &&& e.cover_path is None
    &&& !e.cover_manual
    &&& e.cover_modified_at is None
    &&& e.source@ == entry_source(tag, info)
    &&& opt_view(e.source_url) == source_url_of(
        entry_source(tag, info),
        entry_modrinth_id(tag, info),
        entry_curseforge_slug(tag, info),
    )
    &&& e.has_index == info is Some
    &&& e.has_tags
    &&& opt_view(e.index_file) == match info {
        Some(i) => Some(i.index_file@),
        None => None,
    }
    &&& opt_view(e.pack_side) == match info {
        Some(i) => opt_view(i.side),
        None => None,
    }
    &&& opt_view(e.modrinth_id) == entry_modrinth_id(tag, info)
    &&& opt_view(e.modrinth_version_id) == entry_modrinth_version_id(tag, info)
    &&& opt_view(e.curseforge_id) == entry_curseforge_id(tag, info)
    &&& opt_view(e.curseforge_file_id) == entry_curseforge_file_id(tag, info)
    &&& e.duplicate == duplicate
    &&& e.modified_at@ == modified_at
    &&& e.side_mode@ == (if manual_mode(tag) {
        "manual"@
    } else {
        "auto"@
    })
    &&& e.manual_side@ == stored(tag)
    &&& e.manual_library == tag.library
    &&& e.manual_technical == tag.technical
    &&& (e.provider_side@, e.provider_library, e.provider_technical) == provider_labels_of(tag)
    &&& !e.disabled
}

fn clone_opt(o: &Option<String>) -> (r: Option<String>)
    ensures
        opt_view(r) == opt_view(*o),
{
    match o {
        Some(s) => Some(s.clone()),
        None => None,
    }
}

fn or_else_opt(a: Option<String>, b: Option<String>) -> (r: Option<String>)
    ensures
        opt_view(r) == first_some(opt_view(a), opt_view(b)),
{
    match a {
        Some(x) => Some(x),
        None => b,
    }
}

fn info_field(info: Option<&IndexInfo>, which: u8) -> (r: Option<String>)
    ensures
        which == 0 ==> opt_view(r) == match info_of(info) {
            Some(i) => opt_view(i.modrinth_version_id),
            None => None,
        },
        which == 1 ==> opt_view(r) == match info_of(info) {
            Some(i) => opt_view(i.curseforge_file_id),
            None => None,
        },
        which == 2 ==> opt_view(r) == match info_of(info) {
            Some(i) => Some(i.slug@),
            None => None,
        },
        which == 3 ==> opt_view(r) == match info_of(info) {
            Some(i) => opt_view(i.name),
            None => None,
        },
        which == 4 ==> opt_view(r) == match info_of(info) {
            Some(i) => opt_view(i.side),
            None => None,
        },
        which == 5 ==> opt_view(r) == match info_of(info) {
            Some(i) => Some(i.index_file@),
            None => None,
        },
        which == 6 ==> opt_view(r) == info_modrinth(info_of(info)),
        which == 7 ==> opt_view(r) == info_curseforge(info_of(info)),
{
    match info {
        None => None,
        Some(i) => {
            if which == 0 {
                clone_opt(&i.modrinth_version_id)
            } else if which == 1 {
                clone_opt(&i.curseforge_file_id)
            } else if which == 2 {
                Some(i.slug.clone())
            } else if which == 3 {
                clone_opt(&i.name)
            } else if which == 4 {
                clone_opt(&i.side)
            } else if which == 5 {
                Some(i.index_file.clone())
            } else if which == 6 {
                clone_opt(&i.modrinth_id)
            } else {
                clone_opt(&i.curseforge_id)
            }
        },
    }
}

fn as_deref_opt(o: &Option<String>) -> (r: Option<&str>)
    ensures
        match r {
            Some(s) => opt_view(*o) == Some(s@),
            None => o is None,
        },
{
    match o {
        Some(s) => Some(s.as_str()),
        None => None,
    }
}

fn clone_strings(v: &Vec<String>) -> (r: Vec<String>)
    ensures
        string_views(r@) == string_views(v@),
{
    let mut r: Vec<String> = Vec::new();
    let mut i: usize = 0;
    while i < v.len()
        invariant
            i <= v@.len(),
            string_views(r@) == string_views(v@).take(i as int),
        decreases v@.len() - i,
    {
        let ghost before = r@;
        r.push(v[i].clone());
        assert(string_views(r@) =~= string_views(before).push(v@[i as int]@));
        assert(string_views(v@).take(i + 1) =~= string_views(v@).take(i as int).push(v@[i as int]@));
        i = i + 1;
    }
    assert(string_views(v@).take(v@.len() as int) =~= string_views(v@));
    r
}

/// The list entry for one jar: ids and names from its tags first, then from
/// the index; labels from the tags.
pub fn mod_entry_for(
    filename: &str,
    info: Option<&IndexInfo>,
    key: String,
    tag: &ModTags,
    duplicate: bool,
    modified_at: String,
) -> (r: ModEntry)
    ensures
        is_entry_for(r, filename@, info_of(info), key@, *tag, duplicate, modified_at@),
{
    let modrinth_id = or_else_opt(clean_tag_value(tag.modrinth_id.as_str()), info_field(info, 6));
    let modrinth_version_id = or_else_opt(
        clean_tag_value(tag.modrinth_version_id.as_str()),
        info_field(info, 0),
    );
    let curseforge_id = or_else_opt(clean_tag_value(tag.curseforge_id.as_str()), info_field(info, 7));
    let curseforge_file_id = or_else_opt(
        clean_tag_value(tag.curseforge_file_id.as_str()),
        info_field(info, 1),
    );
    let curseforge_slug = or_else_opt(clean_tag_value(tag.curseforge_slug.as_str()), info_field(info, 2));
    let stored_source = chars_of(tag.source.as_str());
    let source = if eq_str(&stored_source, "modrinth") && modrinth_id.is_some() {
        "modrinth".to_string()
    } else if eq_str(&stored_source, "curseforge") && curseforge_id.is_some() {
        "curseforge".to_string()
    } else {
        default_source(info)
    };
    let side = if tag.side.as_str().is_empty() {
        normalize_side("universal")
    } else {
        normalize_side(tag.side.as_str())
    };
    let dependencies = clone_strings(&tag.dependencies);
    let no_keys: Vec<String> = Vec::new();
    let lists: [&[String]; 2] = [dependencies.as_slice(), no_keys.as_slice()];
    let resolved_dependencies = merge_keys(&lists);
    proof {
        let lv = list_views(lists@);
        assert(lv.len() == 2);
        assert(lv[0] == string_views(dependencies@));
        assert(lv[1] =~= Seq::<Seq<char>>::empty());
        reveal_with_fuel(all_keys, 3);
        assert(lv.drop_last().drop_last() =~= Seq::<Seq<Seq<char>>>::empty());
        assert(all_keys(lv) =~= string_views(dependencies@));
    }
    let fixed = or_else_opt(
        clean_tag_value(tag.display_name.as_str()),
        or_else_opt(clean_tag_value(tag.provider_title.as_str()), info_field(info, 3)),
    );
    let display_name_locked = fixed.is_some();
    let display_name = match fixed {
        Some(n) => n,
        None => display_name_from_filename(filename),
    };
    let url = source_url(source.as_str(), as_deref_opt(&modrinth_id), as_deref_opt(&curseforge_slug));
    let (manual_side, manual_library, manual_technical) = manual_tags_for(tag);
    let (provider_side, provider_library, provider_technical) = provider_tags_for(tag);
    ModEntry {
        key,
        filename: filename.to_string(),
        base: filename.to_string(),
        display_name,
        display_name_locked,
        installed_version: installed_version_from_filename(filename),
        side,
        library: tag.library,
        technical: tag.technical,
        description: tag.description.clone(),
        dependencies,
        resolved_dependencies,
        jar_dependencies: Vec::new(),
        used_by: Vec::new(),
        cover_url: None,
        cover_path: None,
        cover_manual: false,
        cover_modified_at: None,
        source,
        source_url: url,
        has_index: info.is_some(),
        has_tags: true,
        index_file: info_field(info, 5),
        pack_side: info_field(info, 4),
        modrinth_id,
        modrinth_version_id,
        curseforge_id,
        curseforge_file_id,
        duplicate,
        modified_at,
        side_mode: side_mode_for(tag),
        manual_side,
        manual_library,
        manual_technical,
        provider_side,
        provider_library,
        provider_technical,
        disabled: false,
    }
}

// ---------------------------------------------------------------------------
// The tag file during a scan
// ---------------------------------------------------------------------------

/// Each key names one entry at most, as in the map the file holds.
pub open spec fn keys_unique(mods: Seq<(String, ModTags)>) -> bool {
    forall|i: int, j: int|
        0 <= i < j < mods.len() ==> (#[trigger] mods[i]).0@ != (#[trigger] mods[j]).0@
}

/// Whether no key occurs twice in the entries of a tag file.
pub fn tag_keys_unique(mods: &Vec<(String, ModTags)>) -> (r: bool)
    ensures
        r == keys_unique(mods@),
{
    let mut j: usize = 0;
    while j < mods.len()
        invariant
            j <= mods@.len(),
            forall|a: int, b: int| 0 <= a < b < j ==> (#[trigger] mods@[a]).0@ != (#[trigger] mods@[b]).0@,
        decreases mods@.len() - j,
    {
        let kv = chars_of(mods[j].0.as_str());
        let mut i: usize = 0;
        while i < j
            invariant
                i <= j < mods@.len(),
                kv@ == mods@[j as int].0@,
                forall|a: int| 0 <= a < i ==> (#[trigger] mods@[a]).0@ != mods@[j as int].0@,
            decreases j - i,
        {
            if eq_str(&kv, mods[i].0.as_str()) {
                return false;
            }
            i = i + 1;
        }
        j = j + 1;
    }
    true
}

pub open spec fn has_key(mods: Seq<(String, ModTags)>, key: Seq<char>) -> bool {
    exists|i: int| 0 <= i < mods.len() && (#[trigger] mods[i]).0@ == key
}

pub open spec fn has_alias(tag: ModTags, filename: Seq<char>) -> bool {
    string_views(tag.aliases@).contains(filename)
}

/// A tag as a scan creates it for a jar it meets for the first time, its
/// aliases aside.
pub open spec fn is_fresh_tag(t: ModTags, info: Option<IndexInfo>, now: Seq<char>) -> bool {
    &&& t.side@ == match info {
        Some(i) => match opt_view(i.side) {
            Some(sd) => normalized_side(sd),
            None => "universal"@,
        },
        None => "universal"@,
    }
    &&& t.source@ == default_source_of(info)
    &&& t.updated_at@ == now
    &&& !t.library
    &&& !t.technical
    &&& t.description@.len() == 0
    &&& t.dependencies@.len() == 0
    &&& t.modrinth_id@.len() == 0
    &&& t.modrinth_version_id@.len() == 0
    &&& t.curseforge_id@.len() == 0
    &&& t.curseforge_file_id@.len() == 0
    &&& t.curseforge_slug@.len() == 0
    &&& t.display_name@.len() == 0
    &&& t.provider_title@.len() == 0
    &&& t.provider_labels.fetched_at@.len() == 0
    &&& t.provider_labels.client_side@.len() == 0
    &&& t.provider_labels.server_side@.len() == 0
    &&& t.provider_labels.categories@.len() == 0
    &&& t.provider_labels.additional_categories@.len() == 0
    &&& t.label_overrides.side_mode@.len() == 0
}

/// The tag a scan creates for a jar it meets for the first time: fresh, with
/// the jar's name as its one alias.
pub open spec fn is_new_tag(t: ModTags, filename: Seq<char>, info: Option<IndexInfo>, now: Seq<char>) -> bool {
    is_fresh_tag(t, info, now) && string_views(t.aliases@) == seq![filename]
}

/// `after` is `before` with `filename` among its aliases (added at the end
/// when missing); nothing else differs.
pub open spec fn with_alias(before: ModTags, after: ModTags, filename: Seq<char>) -> bool {
    &&& string_views(after.aliases@) == if has_alias(before, filename) {
        string_views(before.aliases@)
    } else {
        string_views(before.aliases@).push(filename)
    }
    &&& after == ModTags { aliases: after.aliases, ..before }
}

/// How one `ensure_tag` changes the entries: kept in place, the entry for
/// `key` gains `filename` as an alias, and a missing entry is appended.
pub open spec fn tag_step(
    before: Seq<(String, ModTags)>,
    after: Seq<(String, ModTags)>,
    key: Seq<char>,
    filename: Seq<char>,
) -> bool {
    &&& has_key(before, key) ==> after.len() == before.len()
    &&& !has_key(before, key) ==> {
        &&& after.len() == before.len() + 1
        &&& after.last().0@ == key
    }
    &&& forall|j: int|
        0 <= j < before.len() ==> {
            &&& (#[trigger] after[j]).0 == before[j].0
            &&& before[j].0@ != key ==> after[j].1 == before[j].1
            &&& before[j].0@ == key ==> with_alias(before[j].1, after[j].1, filename)
        }
}

/// The tag stored under `key`.
pub open spec fn tag_for(mods: Seq<(String, ModTags)>, key: Seq<char>) -> ModTags {
    mods[choose|i: int| 0 <= i < mods.len() && (#[trigger] mods[i]).0@ == key].1
}

pub proof fn lemma_tag_for(mods: Seq<(String, ModTags)>, key: Seq<char>, p: int)
    requires
        keys_unique(mods),
        0 <= p < mods.len(),
        mods[p].0@ == key,
    ensures
        tag_for(mods, key) == mods[p].1,
{
    let q = choose|i: int| 0 <= i < mods.len() && (#[trigger] mods[i]).0@ == key;
    if q < p {
        assert(mods[q].0@ != mods[p].0@);
    } else if q > p {
        assert(mods[p].0@ != mods[q].0@);
    }
}

pub fn find_tag(mods: &Vec<(String, ModTags)>, key: &str) -> (r: Option<usize>)
    ensures
        match r {
            Some(i) => i < mods@.len() && mods@[i as int].0@ == key@,
            None => !has_key(mods@, key@),
        },
{
    let kv = chars_of(key);
    let mut i: usize = 0;
    while i < mods.len()
        invariant
            i <= mods@.len(),
            kv@ == key@,
            forall|j: int| 0 <= j < i ==> (#[trigger] mods@[j]).0@ != key@,
        decreases mods@.len() - i,
    {
        if eq_str(&kv, mods[i].0.as_str()) {
            return Some(i);
        }
        i = i + 1;
    }
    None
}

fn contains_string(v: &Vec<String>, x: &str) -> (r: bool)
    ensures
        r == string_views(v@).contains(x@),
{
    let xv = chars_of(x);
    let mut i: usize = 0;
    while i < v.len()
        invariant
            i <= v@.len(),
            xv@ == x@,
            forall|j: int| 0 <= j < i ==> string_views(v@)[j] != x@,
        decreases v@.len() - i,
    {
        if eq_str(&xv, v[i].as_str()) {
            assert(string_views(v@)[i as int] == x@);
            return true;
        }
        i = i + 1;
    }
    false
}

/// The tag a scan creates for a jar it meets for the first time.
pub fn new_tag_for(filename: &str, info: Option<&IndexInfo>, now: &str) -> (r: ModTags)
    ensures
        is_new_tag(r, filename@, info_of(info), now@),
{
    let side = match info {
        Some(i) => match &i.side {
            Some(sd) => normalize_side(sd.as_str()),
            None => "universal".to_string(),
        },
        None => "universal".to_string(),
    };
    let mut aliases: Vec<String> = Vec::new();
    aliases.push(filename.to_string());
    assert(string_views(aliases@) =~= seq![filename@]);
    let mut t = ModTags::default();
    t.side = side;
    t.aliases = aliases;
    t.source = default_source(info);
    t.updated_at = now.to_string();
    t
}

/// Makes sure the tag file has an entry for `key` that lists `filename` among
/// its aliases; says whether the file changed.
pub fn ensure_tag(tags: &mut TagFile, key: &str, filename: &str, info: Option<&IndexInfo>, now: &str) -> (changed: bool)
    requires
        keys_unique(old(tags).mods@),
    ensures
        keys_unique(final(tags).mods@),
        final(tags).version == old(tags).version,
        final(tags).updated_at == old(tags).updated_at,
        changed <==> (!has_key(old(tags).mods@, key@) || exists|i: int|
            0 <= i < old(tags).mods@.len() && (#[trigger] old(tags).mods@[i]).0@ == key@ && !has_alias(
                old(tags).mods@[i].1,
                filename@,
            )),
        !changed ==> *final(tags) == *old(tags),
        tag_step(old(tags).mods@, final(tags).mods@, key@, filename@),
        !has_key(old(tags).mods@, key@) ==> is_new_tag(
            final(tags).mods@.last().1,
            filename@,
            info_of(info),
            now@,
        ),
{
    match find_tag(&tags.mods, key) {
        None => {
            let t = new_tag_for(filename, info, now);
            tags.mods.push((key.to_string(), t));
            proof {
                assert forall|i: int, j: int| 0 <= i < j < tags.mods@.len() implies (
                #[trigger] tags.mods@[i]).0@ != (#[trigger] tags.mods@[j]).0@ by {
                    if j == tags.mods@.len() - 1 {
                        assert(old(tags).mods@[i] == tags.mods@[i]);
                    } else {
                        assert(old(tags).mods@[i] == tags.mods@[i]);
                        assert(old(tags).mods@[j] == tags.mods@[j]);
                    }
                }
            }
            true
        },
        Some(i) => {
            assert(has_key(old(tags).mods@, key@));
            if contains_string(&tags.mods[i].1.aliases, filename) {
                proof {
                    assert forall|j: int| 0 <= j < old(tags).mods@.len() && (#[trigger] old(
                        tags,
                    ).mods@[j]).0@ == key@ implies has_alias(old(tags).mods@[j].1, filename@) by {
                        if j != i {
                            if j < i {
                                assert(old(tags).mods@[j].0@ != old(tags).mods@[i as int].0@);
                            } else {
                                assert(old(tags).mods@[i as int].0@ != old(tags).mods@[j].0@);
                            }
                        }
                    }
                }
                return false;
            }
            let ghost before = tags.mods@;
            let (k, mut t) = tags.mods.remove(i);
            let ghost told = t;
            t.aliases.push(filename.to_string());
            assert(string_views(t.aliases@) =~= string_views(told.aliases@).push(filename@));
            tags.mods.insert(i, (k, t));
            proof {
                assert(tags.mods@ =~= before.update(i as int, tags.mods@[i as int]));
                assert forall|a: int, b: int| 0 <= a < b < tags.mods@.len() implies (
                #[trigger] tags.mods@[a]).0@ != (#[trigger] tags.mods@[b]).0@ by {
                    assert(before[a].0 == tags.mods@[a].0);
                    assert(before[b].0 == tags.mods@[b].0);
                }
                assert forall|j: int|
                    0 <= j < old(tags).mods@.len() && old(tags).mods@[j].0@ == key@ implies j
                    == i by {
                    if j < i {
                        assert(old(tags).mods@[j].0@ != old(tags).mods@[i as int].0@);
                    } else if j > i {
                        assert(old(tags).mods@[i as int].0@ != old(tags).mods@[j].0@);
                    }
                }
                assert(tags.mods@[i as int].1 == ModTags { aliases: tags.mods@[i as int].1.aliases, ..told });
            }
            true
        },
    }
}

// ---------------------------------------------------------------------------
// Aliases
// ---------------------------------------------------------------------------

/// Entry `i` lists `alias` (trimmed) among its aliases.
pub open spec fn lists_alias(mods: Seq<(String, ModTags)>, i: int, alias: Seq<char>) -> bool {
    &&& 0 <= i < mods.len()
    &&& exists|j: int|
        0 <= j < mods[i].1.aliases@.len() && trim((#[trigger] mods[i].1.aliases@[j])@) == alias
}

/// The key an alias belongs to: the smallest key (in `String` order) among the
/// entries that list it.
pub open spec fn alias_maps_to(mods: Seq<(String, ModTags)>, alias: Seq<char>, key: Seq<char>) -> bool {
    &&& exists|i: int| lists_alias(mods, i, alias) && (#[trigger] mods[i]).0@ == key
    &&& forall|i: int| lists_alias(mods, i, alias) ==> !seq_lt((#[trigger] mods[i]).0@, key)
}

/// The key that owns `alias`, if any entry lists it.
pub open spec fn alias_owner_of(mods: Seq<(String, ModTags)>, alias: Seq<char>) -> Option<Seq<char>> {
    if alias.len() > 0 && exists|i: int| lists_alias(mods, i, alias) {
        Some(choose|k: Seq<char>| alias_maps_to(mods, alias, k))
    } else {
        None
    }
}

fn lists_alias_exec(mods: &Vec<(String, ModTags)>, i: usize, alias: &[char]) -> (r: bool)
    requires
        i < mods@.len(),
    ensures
        r == lists_alias(mods@, i as int, alias@),
{
    let aliases = &mods[i].1.aliases;
    let mut j: usize = 0;
    while j < aliases.len()
        invariant
            j <= aliases@.len(),
            i < mods@.len(),
            aliases@ == mods@[i as int].1.aliases@,
            forall|q: int| 0 <= q < j ==> trim((#[trigger] aliases@[q])@) != alias@,
        decreases aliases@.len() - j,
    {
        let t = trimmed(aliases[j].as_str());
        if eq_chars(&t, alias) {
            assert(trim(mods@[i as int].1.aliases@[j as int]@) == alias@);
            return true;
        }
        j = j + 1;
    }
    false
}

/// The key that owns a jar's file name as an alias: the smallest key (in
/// `String` order) among the entries that list it; none for a blank name.
pub fn alias_key_for(tags: &TagFile, filename: &str) -> (r: Option<String>)
    ensures
        r is Some <==> (filename@.len() > 0 && exists|i: int| lists_alias(tags.mods@, i, filename@)),
        r matches Some(k) ==> alias_maps_to(tags.mods@, filename@, k@),
{
    let fv = chars_of(filename);
    if fv.len() == 0 {
        return None;
    }
    let mods = &tags.mods;
    let mut best: Option<usize> = None;
    let mut i: usize = 0;
    while i < mods.len()
        invariant
            i <= mods@.len(),
            mods@ == tags.mods@,
            fv@ == filename@,
            match best {
                Some(b) => {
                    &&& b < i
                    &&& lists_alias(mods@, b as int, fv@)
                    &&& forall|k: int| 0 <= k < i && lists_alias(mods@, k, fv@) ==> !seq_lt(
                        (#[trigger] mods@[k]).0@,
                        mods@[b as int].0@,
                    )
                },
                None => forall|k: int| 0 <= k < i ==> !lists_alias(mods@, k, fv@),
            },
        decreases mods@.len() - i,
    {
        if lists_alias_exec(mods, i, &fv) {
            match best {
                None => {
                    best = Some(i);
                    proof {
                        lemma_seq_lt_irreflexive(mods@[i as int].0@);
                    }
                },
                Some(b) => {
                    if str_lt(mods[i].0.as_str(), mods[b].0.as_str()) {
                        best = Some(i);
                        proof {
                            lemma_seq_lt_irreflexive(mods@[i as int].0@);
                            assert forall|k: int| 0 <= k < i + 1 && lists_alias(mods@, k, fv@) implies !seq_lt(
                                (#[trigger] mods@[k]).0@,
                                mods@[i as int].0@,
                            ) by {
                                if k < i && seq_lt(mods@[k].0@, mods@[i as int].0@) {
                                    lemma_seq_lt_transitive(mods@[k].0@, mods@[i as int].0@, mods@[b as int].0@);
                                }
                            }
                        }
                    } else {
                        proof {
                            lemma_seq_lt_total(mods@[i as int].0@, mods@[b as int].0@);
                            lemma_seq_lt_asymmetric(mods@[i as int].0@, mods@[b as int].0@);
                        }
                    }
                },
            }
        }
        i = i + 1;
    }
    match best {
        None => None,
        Some(b) => {
            assert(lists_alias(mods@, b as int, fv@) && mods@[b as int].0@ == mods@[b as int].0@);
            Some(mods[b].0.clone())
        },
    }
}

pub proof fn lemma_alias_owner(mods: Seq<(String, ModTags)>, alias: Seq<char>, k: Seq<char>)
    requires
        alias.len() > 0,
        alias_maps_to(mods, alias, k),
    ensures
        alias_owner_of(mods, alias) == Some(k),
{
    let i = choose|i: int| lists_alias(mods, i, alias) && (#[trigger] mods[i]).0@ == k;
    assert(exists|i: int| lists_alias(mods, i, alias));
    let c = choose|c: Seq<char>| alias_maps_to(mods, alias, c);
    let ic = choose|i: int| lists_alias(mods, i, alias) && (#[trigger] mods[i]).0@ == c;
    assert(!seq_lt(mods[i].0@, c));
    assert(!seq_lt(mods[ic].0@, k));
    lemma_seq_lt_total(c, k);
}

// ---------------------------------------------------------------------------
// Scanning the mods folder
// ---------------------------------------------------------------------------

/// Ordered by file name (`String` order, equal names in any order).
pub open spec fn sorted_by_name(s: Seq<(String, String)>) -> bool {
    forall|i: int, j: int| 0 <= i < j < s.len() ==> !seq_lt((#[trigger] s[j]).0@, (#[trigger] s[i]).0@)
}

/// The jars ordered by file name; jars with equal names keep their order.
pub fn sort_jars(jars: Vec<(String, String)>) -> (r: Vec<(String, String)>)
    ensures
        sorted_by_name(r@),
        r@.len() == jars@.len(),
        r@.to_multiset() == jars@.to_multiset(),
{
    broadcast use vstd::seq_lib::group_to_multiset_ensures;

    let mut rest = jars;
    let ghost all = rest@;
    let n = rest.len();
    let mut out: Vec<(String, String)> = Vec::new();
    let mut done: usize = 0;
    assert(all.take(0) =~= Seq::<(String, String)>::empty());
    while rest.len() > 0
        invariant
            done + rest@.len() == n,
            out@.len() == done,
            n == all.len(),
            rest@ == all.subrange(done as int, n as int),
            out@.to_multiset() == all.take(done as int).to_multiset(),
            sorted_by_name(out@),
        decreases rest@.len(),
    {
        let x = rest.remove(0);
        let mut pos: usize = 0;
        while pos < out.len() && !str_lt(x.0.as_str(), out[pos].0.as_str())
            invariant
                pos <= out@.len(),
                forall|k: int| 0 <= k < pos ==> !seq_lt(x.0@, (#[trigger] out@[k]).0@),
            decreases out@.len() - pos,
        {
            pos = pos + 1;
        }
        let ghost before = out@;
        let ghost xv = x;
        proof {
            assert(x == all[done as int]);
            assert(all.take(done + 1) =~= all.take(done as int).push(x));
        }
        out.insert(pos, x);
        proof {
            assert(out@ == before.insert(pos as int, xv));
            vstd::seq_lib::to_multiset_insert(before, pos as int, xv);
            vstd::seq_lib::to_multiset_build(all.take(done as int), xv);
            assert forall|a: int, b: int| 0 <= a < b < out@.len() implies !seq_lt(
                (#[trigger] out@[b]).0@,
                (#[trigger] out@[a]).0@,
            ) by {
                if a < pos && b == pos {
                } else if a < pos && b > pos {
                    assert(out@[b] == before[b - 1]);
                } else if a == pos && b > pos {
                    assert(out@[b] == before[b - 1]);
                    assert(seq_lt(xv.0@, before[pos as int].0@));
                    if seq_lt(before[b - 1].0@, xv.0@) {
                        if b - 1 > pos {
                            lemma_seq_lt_transitive(before[b - 1].0@, xv.0@, before[pos as int].0@);
                        } else {
                            lemma_seq_lt_asymmetric(before[b - 1].0@, xv.0@);
                        }
                    }
                } else if a > pos {
                    assert(out@[a] == before[a - 1]);
                    assert(out@[b] == before[b - 1]);
                }
            }
        }
        done = done + 1;
        assert(rest@ =~= all.subrange(done as int, n as int));
    }
    assert(all.take(n as int) =~= all);
    out
}

/// The index entry for a jar (the first one naming it).
pub open spec fn index_lookup(index: Seq<(String, IndexInfo)>, f: Seq<char>) -> Option<IndexInfo>
    decreases index.len(),
{
    if index.len() == 0 {
        None
    } else if index[0].0@ == f {
        Some(index[0].1)
    } else {
        index_lookup(index.drop_first(), f)
    }
}

fn find_index_entry(index: &Vec<(String, IndexInfo)>, f: &str) -> (r: Option<usize>)
    ensures
        match r {
            Some(i) => i < index@.len() && index_lookup(index@, f@) == Some(index@[i as int].1),
            None => index_lookup(index@, f@) is None,
        },
{
    let fv = chars_of(f);
    let mut i: usize = 0;
    assert(index@.skip(0) =~= index@);
    while i < index.len()
        invariant
            i <= index@.len(),
            fv@ == f@,
            index_lookup(index@, f@) == index_lookup(index@.skip(i as int), f@),
        decreases index@.len() - i,
    {
        assert(index@.skip(i as int)[0] == index@[i as int]);
        assert(index@.skip(i as int).drop_first() =~= index@.skip(i + 1));
        if eq_str(&fv, index[i].0.as_str()) {
            return Some(i);
        }
        i = i + 1;
    }
    None
}

/// How many jars have the file name `f`.
pub open spec fn name_count(jars: Seq<(String, String)>, f: Seq<char>) -> nat
    decreases jars.len(),
{
    if jars.len() == 0 {
        0
    } else {
        name_count(jars.drop_last(), f) + if jars.last().0@ == f {
            1nat
        } else {
            0nat
        }
    }
}

fn more_than_one(jars: &Vec<(String, String)>, f: &str) -> (r: bool)
    ensures
        r == (name_count(jars@, f@) > 1),
{
    let fv = chars_of(f);
    let mut c: usize = 0;
    let mut i: usize = 0;
    while i < jars.len()
        invariant
            i <= jars@.len(),
            fv@ == f@,
            c == if name_count(jars@.take(i as int), f@) > 2 {
                2
            } else {
                name_count(jars@.take(i as int), f@)
            },
        decreases jars@.len() - i,
    {
        assert(jars@.take(i + 1).drop_last() =~= jars@.take(i as int));
        if eq_str(&fv, jars[i].0.as_str()) && c < 2 {
            c = c + 1;
        }
        i = i + 1;
    }
    assert(jars@.take(jars@.len() as int) =~= jars@);
    c > 1
}

/// The key a scan gives a jar.
pub open spec fn scan_key(old_mods: Seq<(String, ModTags)>, index: Seq<(String, IndexInfo)>, f: Seq<char>) -> Seq<
    char,
> {
    key_for(f, index_lookup(index, f), alias_owner_of(old_mods, f))
}

proof fn lemma_entry_survives(
    before: Seq<(String, ModTags)>,
    after: Seq<(String, ModTags)>,
    key: Seq<char>,
    filename: Seq<char>,
    e: ModEntry,
    f: Seq<char>,
    info: Option<IndexInfo>,
    k: Seq<char>,
    dup: bool,
    m: Seq<char>,
)
    requires
        keys_unique(before),
        keys_unique(after),
        tag_step(before, after, key, filename),
        has_key(before, k),
        is_entry_for(e, f, info, k, tag_for(before, k), dup, m),
    ensures
        has_key(after, k),
        is_entry_for(e, f, info, k, tag_for(after, k), dup, m),
{
    let p = choose|i: int| 0 <= i < before.len() && (#[trigger] before[i]).0@ == k;
    lemma_tag_for(before, k, p);
    assert(after[p].0 == before[p].0);
    lemma_tag_for(after, k, p);
}

/// The names of the jars, in order, that a scan files under `k`.
pub open spec fn keyed_files(
    jars: Seq<(String, String)>,
    old_mods: Seq<(String, ModTags)>,
    index: Seq<(String, IndexInfo)>,
    k: Seq<char>,
) -> Seq<Seq<char>>
    decreases jars.len(),
{
    if jars.len() == 0 {
        Seq::empty()
    } else {
        let prev = keyed_files(jars.drop_last(), old_mods, index, k);
        if scan_key(old_mods, index, jars.last().0@) == k {
            prev.push(jars.last().0@)
        } else {
            prev
        }
    }
}

/// `a` with `f` added at the end unless already there.
pub open spec fn add_alias(a: Seq<Seq<char>>, f: Seq<char>) -> Seq<Seq<char>> {
    if a.contains(f) {
        a
    } else {
        a.push(f)
    }
}

/// `a` with each of `fs` added in turn.
pub open spec fn with_aliases(a: Seq<Seq<char>>, fs: Seq<Seq<char>>) -> Seq<Seq<char>>
    decreases fs.len(),
{
    if fs.len() == 0 {
        a
    } else {
        add_alias(with_aliases(a, fs.drop_last()), fs.last())
    }
}

/// How a scan of `jars` leaves the tag file's entries: every stored entry
/// stays in place with all its fields, the names of the jars filed under its
/// key added to its aliases; after them, one fresh entry for each key that
/// had none, made for the first jar filed under it, with the names of those
/// jars as its aliases.
pub open spec fn scan_tags(
    old_mods: Seq<(String, ModTags)>,
    after: Seq<(String, ModTags)>,
    jars: Seq<(String, String)>,
    index: Seq<(String, IndexInfo)>,
    now: Seq<char>,
) -> bool {
    &&& after.len() >= old_mods.len()
    &&& forall|j: int|
        0 <= j < old_mods.len() ==> {
            &&& (#[trigger] after[j]).0 == old_mods[j].0
            &&& after[j].1 == ModTags { aliases: after[j].1.aliases, ..old_mods[j].1 }
            &&& string_views(after[j].1.aliases@) == with_aliases(
                string_views(old_mods[j].1.aliases@),
                keyed_files(jars, old_mods, index, old_mods[j].0@),
            )
        }
    &&& forall|j: int|
        old_mods.len() <= j < after.len() ==> {
            let k = (#[trigger] after[j]).0@;
            let fs = keyed_files(jars, old_mods, index, k);
            &&& !has_key(old_mods, k)
            &&& fs.len() > 0
            &&& is_fresh_tag(after[j].1, index_lookup(index, fs[0]), now)
            &&& string_views(after[j].1.aliases@) == with_aliases(Seq::empty(), fs)
        }
}

proof fn lemma_keyed_files_from(
    jars: Seq<(String, String)>,
    old_mods: Seq<(String, ModTags)>,
    index: Seq<(String, IndexInfo)>,
    k: Seq<char>,
)
    ensures
        keyed_files(jars, old_mods, index, k).len() > 0 ==> exists|j: int|
            0 <= j < jars.len() && scan_key(old_mods, index, (#[trigger] jars[j]).0@) == k,
    decreases jars.len(),
{
    if jars.len() > 0 {
        lemma_keyed_files_from(jars.drop_last(), old_mods, index, k);
        if keyed_files(jars.drop_last(), old_mods, index, k).len() > 0 {
            let j = choose|j: int|
                0 <= j < jars.drop_last().len() && scan_key(old_mods, index, (#[trigger] jars.drop_last()[j]).0@) == k;
            assert(jars[j] == jars.drop_last()[j]);
        } else {
            assert(jars[jars.len() - 1] == jars.last());
        }
    }
}

proof fn lemma_scan_step(
    old_mods: Seq<(String, ModTags)>,
    before: Seq<(String, ModTags)>,
    after: Seq<(String, ModTags)>,
    done: Seq<(String, String)>,
    next: Seq<(String, String)>,
    index: Seq<(String, IndexInfo)>,
    key: Seq<char>,
    f: Seq<char>,
    info: Option<IndexInfo>,
    now: Seq<char>,
)
    requires
        scan_tags(old_mods, before, done, index, now),
        tag_step(before, after, key, f),
        !has_key(before, key) ==> is_new_tag(after.last().1, f, info, now),
        next.len() == done.len() + 1,
        next.drop_last() == done,
        next.last().0@ == f,
        scan_key(old_mods, index, f) == key,
        info == index_lookup(index, f),
        forall|j: int| 0 <= j < done.len() ==> has_key(before, scan_key(old_mods, index, (#[trigger] done[j]).0@)),
    ensures
        scan_tags(old_mods, after, next, index, now),
{
    assert forall|k: Seq<char>| #[trigger] keyed_files(next, old_mods, index, k) == if k == key {
        keyed_files(done, old_mods, index, k).push(f)
    } else {
        keyed_files(done, old_mods, index, k)
    } by {}
    assert forall|j: int| 0 <= j < old_mods.len() implies {
        &&& (#[trigger] after[j]).0 == old_mods[j].0
        &&& after[j].1 == ModTags { aliases: after[j].1.aliases, ..old_mods[j].1 }
        &&& string_views(after[j].1.aliases@) == with_aliases(
            string_views(old_mods[j].1.aliases@),
            keyed_files(next, old_mods, index, old_mods[j].0@),
        )
    } by {
        assert(before[j].0 == old_mods[j].0);
        let fs = keyed_files(done, old_mods, index, old_mods[j].0@);
        if old_mods[j].0@ == key {
            assert(fs.push(f).drop_last() =~= fs);
        }
    }
    assert forall|j: int| old_mods.len() <= j < after.len() implies {
        let k = (#[trigger] after[j]).0@;
        let fs = keyed_files(next, old_mods, index, k);
        &&& !has_key(old_mods, k)
        &&& fs.len() > 0
        &&& is_fresh_tag(after[j].1, index_lookup(index, fs[0]), now)
        &&& string_views(after[j].1.aliases@) == with_aliases(Seq::empty(), fs)
    } by {
        if j < before.len() {
            let k = before[j].0@;
            assert(after[j].0 == before[j].0);
            let fs = keyed_files(done, old_mods, index, k);
            if k == key {
                assert(fs.push(f).drop_last() =~= fs);
                assert(fs.push(f)[0] == fs[0]);
            }
        } else {
            assert(j == before.len());
            assert(!has_key(before, key));
            assert(after[j].0@ == key);
            if has_key(old_mods, key) {
                let q = choose|q: int| 0 <= q < old_mods.len() && (#[trigger] old_mods[q]).0@ == key;
                assert(before[q].0 == old_mods[q].0);
            }
            lemma_keyed_files_from(done, old_mods, index, key);
            if keyed_files(done, old_mods, index, key).len() > 0 {
                let q = choose|q: int| 0 <= q < done.len() && scan_key(old_mods, index, (#[trigger] done[q]).0@) == key;
                assert(has_key(before, scan_key(old_mods, index, done[q].0@)));
            }
            let e = Seq::<Seq<char>>::empty();
            assert(keyed_files(done, old_mods, index, key) =~= e);
            assert(e.push(f).drop_last() =~= e);
            assert(e.push(f).last() == f);
            assert(with_aliases(e, e) == e);
            assert(!e.contains(f));
            assert(add_alias(e, f) =~= seq![f]);
            assert(with_aliases(e, e.push(f)) == add_alias(with_aliases(e, e.push(f).drop_last()), f));
        }
    }
}

/// The mod list of a folder: one entry per jar, ordered by file name, with
/// the tag file completed on the way (see `scan_tags`: stored tags keep all
/// they hold, each jar's name joins its key's aliases, and a key without a
/// tag gets a fresh one). Says whether the tag file changed.
pub fn scan_entries(
    jars: Vec<(String, String)>,
    index: &Vec<(String, IndexInfo)>,
    tags: &mut TagFile,
    now: &str,
) -> (r: (Vec<ModEntry>, bool))
    requires
        keys_unique(old(tags).mods@),
    ensures
        keys_unique(final(tags).mods@),
        final(tags).version == old(tags).version,
        r.1 ==> final(tags).updated_at@ == now@,
        !r.1 ==> *final(tags) == *old(tags),
        r.0@.len() == jars@.len(),
        exists|sorted: Seq<(String, String)>|
            {
                &&& sorted_by_name(sorted)
                &&& sorted.to_multiset() == jars@.to_multiset()
                &&& sorted.len() == r.0@.len()
                &&& scan_tags(old(tags).mods@, final(tags).mods@, sorted, index@, now@)
                &&& forall|i: int|
                    0 <= i < sorted.len() ==> {
                        let f = (#[trigger] sorted[i]).0@;
                        let k = scan_key(old(tags).mods@, index@, f);
                        &&& has_key(final(tags).mods@, k)
                        &&& is_entry_for(
                            r.0@[i],
                            f,
                            index_lookup(index@, f),
                            k,
                            tag_for(final(tags).mods@, k),
                            name_count(sorted, f) > 1,
                            sorted[i].1@,
                        )
                    }
            },
{
    let ghost old_mods = tags.mods@;
    let ghost old_tags = *tags;
    let sorted = sort_jars(jars);
    let ghost sv = sorted@;
    let mut owners: Vec<Option<String>> = Vec::new();
    let mut i: usize = 0;
    while i < sorted.len()
        invariant
            i <= sorted@.len(),
            tags.mods@ == old_mods,
            owners@.len() == i,
            forall|j: int|
                0 <= j < i ==> opt_view(#[trigger] owners@[j]) == alias_owner_of(old_mods, sorted@[j].0@),
        decreases sorted@.len() - i,
    {
        let o = alias_key_for(tags, sorted[i].0.as_str());
        proof {
            if o is Some {
                lemma_alias_owner(old_mods, sorted@[i as int].0@, o->0@);
            }
        }
        owners.push(o);
        i = i + 1;
    }
    let mut entries: Vec<ModEntry> = Vec::new();
    let mut changed = false;
    let mut i: usize = 0;
    while i < sorted.len()
        invariant
            i <= sorted@.len(),
            sv == sorted@,
            owners@.len() == sorted@.len(),
            forall|j: int|
                0 <= j < sorted@.len() ==> opt_view(#[trigger] owners@[j]) == alias_owner_of(
                    old_mods,
                    sorted@[j].0@,
                ),
            entries@.len() == i,
            keys_unique(tags.mods@),
            tags.version == old_tags.version,
            tags.updated_at == old_tags.updated_at,
            !changed ==> *tags == old_tags,
            old_mods == old_tags.mods@,
            scan_tags(old_mods, tags.mods@, sv.take(i as int), index@, now@),
            forall|j: int|
                0 <= j < i ==> {
                    let f = (#[trigger] sv[j]).0@;
                    let k = scan_key(old_mods, index@, f);
                    &&& has_key(tags.mods@, k)
                    &&& is_entry_for(
                        entries@[j],
                        f,
                        index_lookup(index@, f),
                        k,
                        tag_for(tags.mods@, k),
                        name_count(sv, f) > 1,
                        sv[j].1@,
                    )
                },
        decreases sorted@.len() - i,
    {
        let filename = sorted[i].0.as_str();
        let info = match find_index_entry(index, filename) {
            Some(p) => Some(&index[p].1),
            None => None,
        };
        let key = key_for_file(filename, info, &owners[i]);
        let ghost before = tags.mods@;
        let step_changed = ensure_tag(tags, key.as_str(), filename, info, now);
        if step_changed {
            changed = true;
        }
        proof {
            let done = sv.take(i as int);
            let next = sv.take(i + 1);
            assert(next.drop_last() =~= done);
            assert(next.last() == sv[i as int]);
            assert forall|j: int| 0 <= j < done.len() implies has_key(
                before,
                scan_key(old_mods, index@, (#[trigger] done[j]).0@),
            ) by {
                assert(done[j] == sv[j]);
            }
            lemma_scan_step(old_mods, before, tags.mods@, done, next, index@, key@, filename@, info_of(info), now@);
        }
        proof {
            assert forall|j: int| 0 <= j < i implies {
                let f = (#[trigger] sv[j]).0@;
                let k = scan_key(old_mods, index@, f);
                &&& has_key(tags.mods@, k)
                &&& is_entry_for(
                    entries@[j],
                    f,
                    index_lookup(index@, f),
                    k,
                    tag_for(tags.mods@, k),
                    name_count(sv, f) > 1,
                    sv[j].1@,
                )
            } by {
                let f = sv[j].0@;
                let k = scan_key(old_mods, index@, f);
                lemma_entry_survives(
                    before,
                    tags.mods@,
                    key@,
                    filename@,
                    entries@[j],
                    f,
                    index_lookup(index@, f),
                    k,
                    name_count(sv, f) > 1,
                    sv[j].1@,
                );
            }
        }
        let p = match find_tag(&tags.mods, key.as_str()) {
            Some(p) => p,
            None => {
                proof {
                    if has_key(before, key@) {
                        let q = choose|q: int| 0 <= q < before.len() && (#[trigger] before[q]).0@ == key@;
                        assert(tags.mods@[q].0 == before[q].0);
                    } else {
                        assert(tags.mods@[tags.mods@.len() - 1].0@ == key@);
                    }
                }
                return (entries, changed);
            },
        };
        proof {
            lemma_tag_for(tags.mods@, key@, p as int);
        }
        let dup = more_than_one(&sorted, filename);
        let entry = mod_entry_for(
            filename,
            info,
            key,
            &tags.mods[p].1,
            dup,
            sorted[i].1.clone(),
        );
        entries.push(entry);
        i = i + 1;
    }
    assert(sv.take(sv.len() as int) =~= sv);
    if changed {
        tags.updated_at = now.to_string();
    }
    (entries, changed)
}

} // verus!
