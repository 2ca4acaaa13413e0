//! Reading a packwiz index (`mods/.index/*.pw.toml`), the metadata a
//! Fabric or Quilt jar carries as JSON, and the JSON files of an instance.
use vstd::prelude::*;
use crate::text::{ends_with, opt_view};
use crate::mods::{index_entry, IndexInfo};
use crate::caches::{put, put_entry};
use crate::jar_deps::{clean_metadata_name, clean_metadata_version, clean_value};

verus! {

// ---------------------------------------------------------------------------
// packwiz index files
// ---------------------------------------------------------------------------

/// A TOML value as the library reads it: a string, an integer, a table (its
/// entries), or anything else.
pub enum TomlNode {
    Text(String),
    Integer(i64),
    Table(Vec<(String, TomlNode)>),
    Other,
}

#[verifier::external_type_specification]
#[verifier::external_body]
pub struct ExTomlValue(toml::Value);

/// Turns a `toml::Value` into a `TomlNode`, one variant for one: strings,
/// integers and tables (entry by entry) as they are; arrays, floats,
/// booleans and datetimes as `Other`.
#[verifier::external_body]
fn toml_node(value: toml::Value) -> TomlNode {
    match value {
        toml::Value::String(s) => TomlNode::Text(s),
        toml::Value::Integer(n) => TomlNode::Integer(n),
        toml::Value::Table(t) => TomlNode::Table(t.into_iter().map(|(k, v)| (k, toml_node(v))).collect()),
        _ => TomlNode::Other,
    }
}

/// The TOML document a text holds; none where it is not TOML.
pub uninterp spec fn toml_document(text: Seq<char>) -> Option<TomlNode>;

/// `text.parse::<toml::Value>()` (the `FromStr` impl of `toml::Value`,
/// which reads a whole document): the document is named, not stated.
#[verifier::external_body]
fn toml_parse(text: &str) -> (r: Option<TomlNode>)
    ensures
        r == toml_document(text@),
{
    text.parse::<toml::Value>().ok().map(toml_node)
}

/// The value under `key` in a table's entries.
pub open spec fn table_get(entries: Seq<(String, TomlNode)>, key: Seq<char>) -> Option<TomlNode>
    decreases entries.len(),
{
    if entries.len() == 0 {
        None
    } else if entries[0].0@ == key {
        Some(entries[0].1)
    } else {
        table_get(entries.drop_first(), key)
    }
}

/// The value at `path` (table keys, outermost first).
pub open spec fn node_at(node: TomlNode, path: Seq<Seq<char>>) -> Option<TomlNode>
    decreases path.len(),
{
    if path.len() == 0 {
        Some(node)
    } else {
        match node {
            TomlNode::Table(t) => match table_get(t@, path[0]) {
                Some(c) => node_at(c, path.drop_first()),
                None => None,
            },
            _ => None,
        }
    }
}

/// A value as text: a string as it is, an integer in decimal.
pub open spec fn leaf_text(node: Option<TomlNode>) -> Option<Seq<char>> {
    match node {
        Some(TomlNode::Text(s)) => Some(s@),
        Some(TomlNode::Integer(n)) => Some(crate::prefetch::i64_text(n)),
        _ => None,
    }
}

/// The field at `path` of a TOML text, as text: none where the text is not
/// TOML, the path leads nowhere, or the value is of another kind.
pub open spec fn toml_string_at(text: Seq<char>, path: Seq<Seq<char>>) -> Option<Seq<char>> {
    match toml_document(text) {
        Some(d) => leaf_text(node_at(d, path)),
        None => None,
    }
}

fn table_entry<'a>(entries: &'a Vec<(String, TomlNode)>, key: &str) -> (r: Option<&'a TomlNode>)
    ensures
        match r {
            Some(n) => table_get(entries@, key@) == Some(*n),
            None => table_get(entries@, key@) is None,
        },
{
    let kv = crate::text::chars_of(key);
    let mut i: usize = 0;
    assert(entries@.skip(0) =~= entries@);
    while i < entries.len()
        invariant
            i <= entries@.len(),
            kv@ == key@,
            table_get(entries@, key@) == table_get(entries@.skip(i as int), key@),
        decreases entries@.len() - i,
    {
        assert(entries@.skip(i as int).drop_first() =~= entries@.skip(i + 1));
        if crate::text::eq_str(&kv, entries[i].0.as_str()) {
            return Some(&entries[i].1);
        }
        i = i + 1;
    }
    None
}

/// The field at `path` of a parsed document, as text.
fn field_in(doc: &TomlNode, path: &[&str]) -> (r: Option<String>)
    ensures
        opt_view(r) == leaf_text(node_at(*doc, path@.map_values(|p: &str| p@))),
{
    let ghost pv = path@.map_values(|p: &str| p@);
    let mut cur = doc;
    let mut i: usize = 0;
    assert(pv.skip(0) =~= pv);
    while i < path.len()
        invariant
            i <= path@.len(),
            pv == path@.map_values(|p: &str| p@),
            node_at(*doc, pv) == node_at(*cur, pv.skip(i as int)),
        decreases path@.len() - i,
    {
        assert(pv.skip(i as int)[0] == path@[i as int]@);
        assert(pv.skip(i as int).drop_first() =~= pv.skip(i + 1));
        match cur {
            TomlNode::Table(t) => match table_entry(t, path[i]) {
                Some(n) => {
                    cur = n;
                },
                None => {
                    return None;
                },
            },
            _ => {
                return None;
            },
        }
        i = i + 1;
    }
    match cur {
        TomlNode::Text(s) => Some(s.clone()),
        TomlNode::Integer(n) => Some(crate::prefetch::i64_string(*n)),
        _ => None,
    }
}

pub open spec fn filename_path() -> Seq<Seq<char>> {
    seq!["filename"@]
}

pub open spec fn name_path() -> Seq<Seq<char>> {
    seq!["name"@]
}

pub open spec fn side_path() -> Seq<Seq<char>> {
    seq!["side"@]
}

pub open spec fn modrinth_id_path() -> Seq<Seq<char>> {
    seq!["update"@, "modrinth"@, "mod-id"@]
}

pub open spec fn modrinth_version_path() -> Seq<Seq<char>> {
    seq!["update"@, "modrinth"@, "version"@]
}

pub open spec fn curseforge_id_path() -> Seq<Seq<char>> {
    seq!["update"@, "curseforge"@, "project-id"@]
}

pub open spec fn curseforge_file_path() -> Seq<Seq<char>> {
    seq!["update"@, "curseforge"@, "file-id"@]
}

fn field1(doc: &Option<TomlNode>, a: &str) -> (r: Option<String>)
    ensures
        opt_view(r) == match *doc {
            Some(d) => leaf_text(node_at(d, seq![a@])),
            None => None,
        },
{
    match doc {
        Some(d) => {
            let path = [a];
            assert(path@.map_values(|p: &str| p@) =~= seq![a@]);
            field_in(d, &path)
        },
        None => None,
    }
}

fn field3(doc: &Option<TomlNode>, a: &str, b: &str, c: &str) -> (r: Option<String>)
    ensures
        opt_view(r) == match *doc {
            Some(d) => leaf_text(node_at(d, seq![a@, b@, c@])),
            None => None,
        },
{
    match doc {
        Some(d) => {
            let path = [a, b, c];
            assert(path@.map_values(|p: &str| p@) =~= seq![a@, b@, c@]);
            field_in(d, &path)
        },
        None => None,
    }
}

/// The index entry a `.pw.toml` file gives for the jar it names: none for
/// another kind of file or one that names no jar.
pub fn index_entry_from_text(file_name: &str, text: &str) -> (r: Option<(String, IndexInfo)>)
    ensures
        r is Some <==> (ends_with(file_name@, ".pw.toml"@) && toml_string_at(text@, filename_path()) is Some),
        r matches Some(e) ==> {
            &&& Some(e.0@) == toml_string_at(text@, filename_path())
            &&& e.1.index_file@ == file_name@
            &&& e.1.slug@ == crate::text::trim_end_str(file_name@, ".pw.toml"@)
            &&& opt_view(e.1.name) == toml_string_at(text@, name_path())
            &&& opt_view(e.1.side) == toml_string_at(text@, side_path())
            &&& opt_view(e.1.modrinth_id) == toml_string_at(text@, modrinth_id_path())
            &&& opt_view(e.1.modrinth_version_id) == toml_string_at(text@, modrinth_version_path())
            &&& opt_view(e.1.curseforge_id) == toml_string_at(text@, curseforge_id_path())
            &&& opt_view(e.1.curseforge_file_id) == toml_string_at(text@, curseforge_file_path())
        },
{
    proof {
        reveal_strlit("filename");
        reveal_strlit("name");
        reveal_strlit("side");
        reveal_strlit("update");
        reveal_strlit("modrinth");
        reveal_strlit("mod-id");
        reveal_strlit("version");
        reveal_strlit("curseforge");
        reveal_strlit("project-id");
        reveal_strlit("file-id");
    }
    let doc = toml_parse(text);
    index_entry(
        file_name,
        field1(&doc, "filename"),
        field1(&doc, "name"),
        field1(&doc, "side"),
        field3(&doc, "update", "modrinth", "mod-id"),
        field3(&doc, "update", "modrinth", "version"),
        field3(&doc, "update", "curseforge", "project-id"),
        field3(&doc, "update", "curseforge", "file-id"),
    )
}

/// Adds an index entry: a later file that names the same jar replaces the
/// earlier one in its place.
pub fn merge_index(index: &mut Vec<(String, IndexInfo)>, entry: (String, IndexInfo))
    ensures
        final(index)@ == put(old(index)@, entry.0, entry.1),
{
    let (jar, info) = entry;
    put_entry(index, jar, info);
}

// ---------------------------------------------------------------------------
// Fabric and Quilt metadata
// ---------------------------------------------------------------------------

/// The string at top-level field `key` of a JSON document: none where the
/// text is not JSON, the field is missing, or it holds no string.
pub uninterp spec fn json_str_field(text: Seq<char>, key: Seq<char>) -> Option<Seq<char>>;

/// `serde_json::from_str::<serde_json::Value>`, then `Value::get(key)` and
/// `Value::as_str`: the result is named, not stated.
#[verifier::external_body]
pub(crate) fn json_field(text: &str, key: &str) -> (r: Option<String>)
    ensures
        opt_view(r) == json_str_field(text@, key@),
{
    let value: serde_json::Value = serde_json::from_str(text).ok()?;
    value.get(key).and_then(|item| item.as_str()).map(|item| item.to_string())
}

pub open spec fn cleaned_field(text: Seq<char>, key: Seq<char>) -> Option<Seq<char>> {
    match json_str_field(text, key) {
        Some(v) => clean_value(v),
        None => None,
    }
}

/// The display name, version and mod id a `fabric.mod.json` or
/// `quilt.mod.json` gives, each cleaned of blanks and placeholders.
pub fn jar_json_metadata(text: &str) -> (r: (Option<String>, Option<String>, Option<String>))
    ensures
        opt_view(r.0) == cleaned_field(text@, "name"@),
        opt_view(r.1) == cleaned_field(text@, "version"@),
        opt_view(r.2) == cleaned_field(text@, "id"@),
{
    let name = match json_field(text, "name") {
        Some(v) => clean_metadata_name(v.as_str()),
        None => None,
    };
    let version = match json_field(text, "version") {
        Some(v) => clean_metadata_version(v.as_str()),
        None => None,
    };
    let id = match json_field(text, "id") {
        Some(v) => clean_metadata_name(v.as_str()),
        None => None,
    };
    (name, version, id)
}

// ---------------------------------------------------------------------------
// mmc-pack.json
// ---------------------------------------------------------------------------

/// The components of an `mmc-pack.json` text: for each entry of its
/// `components` array, the `uid` and the `version` where they are strings;
/// none where the text is not JSON or has no `components` array.
pub uninterp spec fn json_components(text: Seq<char>) -> Option<Seq<(Option<Seq<char>>, Option<Seq<char>>)>>;

/// `serde_json::from_str::<serde_json::Value>`, then `get("components")`
/// and `as_array`, and for each entry `get` and `as_str` of `uid` and
/// `version`: the result is named, not stated.
#[verifier::external_body]
pub(crate) fn json_component_list(text: &str) -> (r: Option<Vec<(Option<String>, Option<String>)>>)
    ensures
        match r {
            Some(v) => json_components(text@) == Some(
                v@.map_values(|p: (Option<String>, Option<String>)| (opt_view(p.0), opt_view(p.1))),
            ),
            None => json_components(text@) is None,
        },
{
    let value: serde_json::Value = serde_json::from_str(text).ok()?;
    let items = value.get("components")?.as_array()?;
    let field = |item: &serde_json::Value, key: &str| item.get(key).and_then(|v| v.as_str()).map(|v| v.to_string());
    Some(items.iter().map(|item| (field(item, "uid"), field(item, "version"))).collect())
}

/// Components with a missing `uid` read as a blank one.
pub open spec fn uid_or_blank(c: Seq<(Option<Seq<char>>, Option<Seq<char>>)>) -> Seq<(Seq<char>, Option<Seq<char>>)> {
    c.map_values(
        |p: (Option<Seq<char>>, Option<Seq<char>>)|
            (
                match p.0 {
                    Some(u) => u,
                    None => Seq::<char>::empty(),
                },
                p.1,
            ),
    )
}

/// The components (uid, version) an `mmc-pack.json` text lists; none where
/// it is not JSON or lists none.
pub fn mmc_pack_components(text: &str) -> (r: Option<Vec<(String, Option<String>)>>)
    ensures
        match json_components(text@) {
            None => r is None,
            Some(c) => r matches Some(v) && crate::instance_meta::component_views(v@) == uid_or_blank(c),
        },
{
    let list = match json_component_list(text) {
        Some(l) => l,
        None => {
            return None;
        },
    };
    let ghost lv = list@.map_values(|p: (Option<String>, Option<String>)| (opt_view(p.0), opt_view(p.1)));
    let mut out: Vec<(String, Option<String>)> = Vec::new();
    let mut i: usize = 0;
    while i < list.len()
        invariant
            i <= list@.len(),
            lv == list@.map_values(|p: (Option<String>, Option<String>)| (opt_view(p.0), opt_view(p.1))),
            crate::instance_meta::component_views(out@) == uid_or_blank(lv.take(i as int)),
        decreases list@.len() - i,
    {
        let uid = match &list[i].0 {
            Some(u) => u.clone(),
            None => String::new(),
        };
        let version = match &list[i].1 {
            Some(v) => Some(v.clone()),
            None => None,
        };
        let ghost before = out@;
        out.push((uid, version));
        proof {
            assert(lv.take(i + 1) =~= lv.take(i as int).push(lv[i as int]));
            assert(crate::instance_meta::component_views(out@) =~= crate::instance_meta::component_views(before).push(
                (uid@, opt_view(version)),
            ));
            assert(uid_or_blank(lv.take(i + 1)) =~= uid_or_blank(lv.take(i as int)).push(uid_or_blank(lv.take(i + 1))[i as int]));
        }
        i = i + 1;
    }
    assert(lv.take(list@.len() as int) =~= lv);
    Some(out)
}

// ---------------------------------------------------------------------------
// automodpack-client.json
// ---------------------------------------------------------------------------

/// The modpack AutoModPack has selected: the `selectedModpack` text,
/// trimmed; none where it is missing or blank.
pub fn selected_modpack_from_json(text: &str) -> (r: Option<String>)
    ensures
        opt_view(r) == match json_str_field(text@, "selectedModpack"@) {
            Some(v) => if crate::text::trim(v).len() > 0 {
                Some(crate::text::trim(v))
            } else {
                None
            },
            None => None,
        },
{
    match json_field(text, "selectedModpack") {
        Some(v) => {
            let t = crate::text::trim_string(v.as_str());
            if t.as_str().is_empty() {
                None
            } else {
                Some(t)
            }
        },
        None => None,
    }
}

} // verus!
