//! Naming of the cached cover images of catalogue entries.
use vstd::prelude::*;
use crate::text::{chars_of, lower, starts_with, string_of, to_lower};

verus! {

/// The image extensions a cached cover may have.
pub open spec fn cover_extensions() -> Seq<Seq<char>> {
    seq!["png"@, "jpg"@, "jpeg"@, "webp"@, "gif"@]
}

/// A present, non-empty identifier.
pub open spec fn non_empty_id(id: Option<Seq<char>>) -> bool {
    id matches Some(s) && s.len() > 0
}

/// The cache key of a cover: by the Modrinth id where there is one, else by
/// the CurseForge id.
pub open spec fn cover_prefix(modrinth_id: Option<Seq<char>>, curseforge_id: Option<Seq<char>>) -> Option<Seq<char>> {
    if non_empty_id(modrinth_id) {
        Some("modrinth-"@ + modrinth_id.unwrap())
    } else if non_empty_id(curseforge_id) {
        Some("curseforge-"@ + curseforge_id.unwrap())
    } else {
        None
    }
}

pub open spec fn opt_str_view(o: Option<&str>) -> Option<Seq<char>> {
    match o {
        Some(s) => Some(s@),
        None => None,
    }
}

pub fn cover_cache_prefix(modrinth_id: Option<&str>, curseforge_id: Option<&str>) -> (r: Option<String>)
    ensures
        match r {
            Some(s) => cover_prefix(opt_str_view(modrinth_id), opt_str_view(curseforge_id)) == Some(s@),
            None => cover_prefix(opt_str_view(modrinth_id), opt_str_view(curseforge_id)) is None,
        },
{
    if let Some(id) = modrinth_id {
        if chars_of(id).len() > 0 {
            let mut out = "modrinth-".to_string();
            out.append(id);
            proof {
                reveal_strlit("modrinth-");
            }
            return Some(out);
        }
    }
    if let Some(id) = curseforge_id {
        if chars_of(id).len() > 0 {
            let mut out = "curseforge-".to_string();
            out.append(id);
            proof {
                reveal_strlit("curseforge-");
            }
            return Some(out);
        }
    }
    None
}

/// The index of the last `.` in `s`, if any.
pub open spec fn last_dot(s: Seq<char>) -> Option<int>
    decreases s.len(),
{
    if s.len() == 0 {
        None
    } else if s.last() == '.' {
        Some(s.len() - 1)
    } else {
        last_dot(s.drop_last())
    }
}

proof fn lemma_last_dot_bounds(s: Seq<char>)
    ensures
        last_dot(s) matches Some(i) ==> 0 <= i < s.len() && s[i] == '.',
        last_dot(s) matches Some(i) ==> forall|j: int| i < j < s.len() ==> s[j] != '.',
        last_dot(s) is None ==> forall|j: int| 0 <= j < s.len() ==> s[j] != '.',
    decreases s.len(),
{
    if s.len() > 0 && s.last() != '.' {
        lemma_last_dot_bounds(s.drop_last());
        assert forall|j: int| 0 <= j < s.len() - 1 implies s.drop_last()[j] == s[j] by {}
    }
}

/// The extension of a file name: what follows its last dot, where that dot
/// is not the first character.
pub open spec fn file_extension(name: Seq<char>) -> Option<Seq<char>> {
    match last_dot(name) {
        Some(i) => if i > 0 {
            Some(name.subrange(i + 1, name.len() as int))
        } else {
            None
        },
        None => None,
    }
}

/// A file in the covers folder holds the cover with the given key: its
/// lower-cased name starts with the lower-cased key, followed by `.` or `_`,
/// and it ends in an image extension.
pub open spec fn is_cover_file(name: Seq<char>, prefix: Seq<char>) -> bool {
    let n = lower(name);
    let p = lower(prefix);
    &&& starts_with(n, p)
    &&& n.len() > p.len()
    &&& (n[p.len() as int] == '.' || n[p.len() as int] == '_')
    &&& file_extension(n) matches Some(e) && cover_extensions().contains(e)
}

fn extension_index(v: &[char]) -> (r: Option<usize>)
    ensures
        match r {
            Some(i) => last_dot(v@) == Some(i as int),
            None => last_dot(v@) is None,
        },
{
    let mut n: usize = v.len();
    assert(v@.take(n as int) =~= v@);
    while n > 0
        invariant
            n <= v@.len(),
            last_dot(v@) == last_dot(v@.take(n as int)),
        decreases n,
    {
        assert(v@.take(n as int).drop_last() =~= v@.take(n - 1));
        if v[n - 1] == '.' {
            return Some(n - 1);
        }
        n = n - 1;
    }
    None
}

fn is_cover_extension(e: &[char]) -> (r: bool)
    ensures
        r == cover_extensions().contains(e@),
{
    proof {
        reveal_strlit("png");
        reveal_strlit("jpg");
        reveal_strlit("jpeg");
        reveal_strlit("webp");
        reveal_strlit("gif");
    }
    let exts: [&str; 5] = ["png", "jpg", "jpeg", "webp", "gif"];
    let ghost all = cover_extensions();
    let mut i: usize = 0;
    while i < 5
        invariant
            i <= 5,
            forall|k: int| 0 <= k < 5 ==> (#[trigger] exts@[k])@ == all[k],
            all == cover_extensions(),
            forall|k: int| 0 <= k < i ==> all[k] != e@,
        decreases 5 - i,
    {
        let x = chars_of(exts[i]);
        if crate::text::eq_chars(e, &x) {
            assert(all[i as int] == e@);
            return true;
        }
        i = i + 1;
    }
    assert forall|k: int| 0 <= k < all.len() implies all[k] != e@ by {}
    false
}

pub fn cover_file_matches(name: &str, prefix: &str) -> (r: bool)
    ensures
        r == is_cover_file(name@, prefix@),
{
    let n = to_lower(&chars_of(name));
    let p = to_lower(&chars_of(prefix));
    if !crate::text::starts_with_chars(&n, &p) || n.len() <= p.len() {
        return false;
    }
    let c = n[p.len()];
    if c != '.' && c != '_' {
        return false;
    }
    has_cover_extension(&n)
}

/// A name whose extension is an image extension.
pub fn has_cover_extension(n: &[char]) -> (r: bool)
    ensures
        r == (file_extension(n@) matches Some(e) && cover_extensions().contains(e)),
{
    proof {
        lemma_last_dot_bounds(n@);
    }
    match extension_index(n) {
        Some(i) => {
            if i == 0 {
                return false;
            }
            let len = n.len();
            assert(i < len);
            let e = crate::text::slice_chars(n, i + 1, len);
            is_cover_extension(&e)
        },
        None => false,
    }
}

/// The first of the listed file names that holds the cover with the given key.
pub open spec fn first_cover(names: Seq<Seq<char>>, prefix: Seq<char>) -> Option<int> {
    if exists|i: int| 0 <= i < names.len() && is_cover_file(#[trigger] names[i], prefix) {
        Some(choose|i: int| 0 <= i < names.len() && is_cover_file(#[trigger] names[i], prefix)
            && forall|j: int| 0 <= j < i ==> !is_cover_file(#[trigger] names[j], prefix))
    } else {
        None
    }
}

/// The position, among the files of the covers folder, of the cover with the
/// given key: the first one that matches, or none.
pub fn find_catalog_cover(names: &Vec<String>, prefix: &str) -> (r: Option<usize>)
    ensures
        match r {
            Some(i) => {
                &&& i < names@.len()
                &&& is_cover_file(names@[i as int]@, prefix@)
                &&& forall|j: int| 0 <= j < i ==> !is_cover_file(#[trigger] names@[j]@, prefix@)
            },
            None => forall|j: int| 0 <= j < names@.len() ==> !is_cover_file(#[trigger] names@[j]@, prefix@),
        },
{
    let mut i: usize = 0;
    while i < names.len()
        invariant
            i <= names@.len(),
            forall|j: int| 0 <= j < i ==> !is_cover_file(#[trigger] names@[j]@, prefix@),
        decreases names@.len() - i,
    {
        if cover_file_matches(names[i].as_str(), prefix) {
            return Some(i);
        }
        i = i + 1;
    }
    None
}

/// The file name a cover is saved under.
pub fn cover_file_name(prefix: &str, ext: &str) -> (r: String)
    ensures
        r@ == prefix@ + "."@ + ext@,
{
    let mut out = prefix.to_string();
    out.append(".");
    out.append(ext);
    out
}

/// The names of the covers with the given key under every image extension:
/// those a newly saved cover replaces.
pub fn stale_cover_names(prefix: &str) -> (r: Vec<String>)
    ensures
        r@.len() == cover_extensions().len(),
        forall|k: int| 0 <= k < r@.len() ==> (#[trigger] r@[k])@ == prefix@ + "."@ + cover_extensions()[k],
{
    proof {
        reveal_strlit("png");
        reveal_strlit("jpg");
        reveal_strlit("jpeg");
        reveal_strlit("webp");
        reveal_strlit("gif");
    }
    let exts: [&str; 5] = ["png", "jpg", "jpeg", "webp", "gif"];
    let mut r: Vec<String> = Vec::new();
    let mut i: usize = 0;
    while i < 5
        invariant
            i <= 5,
            forall|k: int| 0 <= k < 5 ==> (#[trigger] exts@[k])@ == cover_extensions()[k],
            r@.len() == i,
            forall|k: int| 0 <= k < i ==> (#[trigger] r@[k])@ == prefix@ + "."@ + cover_extensions()[k],
        decreases 5 - i,
    {
        let name = cover_file_name(prefix, exts[i]);
        r.push(name);
        i = i + 1;
    }
    r
}

} // verus!
