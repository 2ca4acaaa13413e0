//! Where the cover of a mod is cached, found again and saved.
use vstd::prelude::*;
use crate::text::{
    chars_of, char_is_alnum, char_lower, eq_str, is_alnum, lower, lower_char, slice_chars, split_by, string_of,
    string_views, to_lower, trim, trim_char, trim_char_chars, trimmed, find, find_chars, strip_prefix,
    strip_prefix_chars, split_chars, lemma_split_by_nonempty,
};
use vstd::string::StringSliceAdditionalSpecFns;
use base64::Engine;
use crate::catalog::{cover_file_matches, file_extension, is_cover_file};
use crate::file_identity::{hex_lower, sha256_digest, sha256_hex};
use crate::server_control::base64_standard;

verus! {

/// One character of a file stem: ASCII letters and digits lower-cased,
/// everything else an underscore.
pub open spec fn stem_char(c: char) -> char {
    if is_alnum(c) {
        lower_char(c)
    } else {
        '_'
    }
}

pub open spec fn stem_chars(s: Seq<char>) -> Seq<char> {
    s.map_values(|c: char| stem_char(c))
}

/// A key as a file stem: characters mapped by `stem_char`, underscores
/// trimmed from both ends, `cover` where nothing is left.
pub open spec fn safe_stem(s: Seq<char>) -> Seq<char> {
    let t = trim_char(stem_chars(s), '_');
    if t.len() == 0 {
        "cover"@
    } else {
        t
    }
}

pub fn safe_file_stem(value: &str) -> (r: String)
    ensures
        r@ == safe_stem(value@),
{
    let v = chars_of(value);
    let mut m: Vec<char> = Vec::new();
    let mut i: usize = 0;
    while i < v.len()
        invariant
            i <= v@.len(),
            v@ == value@,
            m@ == stem_chars(v@.take(i as int)),
        decreases v@.len() - i,
    {
        let c = v[i];
        let d = if char_is_alnum(c) {
            char_lower(c)
        } else {
            '_'
        };
        m.push(d);
        assert(stem_chars(v@.take(i + 1)) =~= stem_chars(v@.take(i as int)).push(stem_char(c)));
        i = i + 1;
    }
    assert(v@.take(v@.len() as int) =~= v@);
    let t = trim_char_chars(&m, '_');
    if t.len() == 0 {
        "cover".to_string()
    } else {
        string_of(&t)
    }
}

/// The text before the first `;` of a media type, trimmed.
pub open spec fn media_essence(mime: Seq<char>) -> Seq<char> {
    trim(split_by(mime, seq![';'])[0])
}

/// The extension a cover is saved with, by the media type the server sent.
pub open spec fn ext_of_mime(mime: Seq<char>) -> Option<Seq<char>> {
    let m = media_essence(mime);
    if m == "image/png"@ {
        Some("png"@)
    } else if m == "image/jpeg"@ || m == "image/jpg"@ {
        Some("jpg"@)
    } else if m == "image/webp"@ {
        Some("webp"@)
    } else if m == "image/gif"@ {
        Some("gif"@)
    } else {
        None
    }
}

pub fn cover_ext_from_mime(mime: &str) -> (r: Option<String>)
    ensures
        crate::text::opt_view(r) == ext_of_mime(mime@),
{
    let v = chars_of(mime);
    let semi = chars_of(";");
    proof {
        reveal_strlit(";");
        assert(semi@ =~= seq![';']);
        crate::text::lemma_split_by_nonempty(v@, semi@);
    }
    let parts = crate::text::split_chars(&v, &semi);
    let first = crate::text::trim_chars(&parts[0]);
    if eq_str(&first, "image/png") {
        Some("png".to_string())
    } else if eq_str(&first, "image/jpeg") || eq_str(&first, "image/jpg") {
        Some("jpg".to_string())
    } else if eq_str(&first, "image/webp") {
        Some("webp".to_string())
    } else if eq_str(&first, "image/gif") {
        Some("gif".to_string())
    } else {
        None
    }
}

/// The name a hand-picked cover is stored under: the first 24 hex digits of
/// the SHA-256 of the mod's key.
pub fn hash_cover_key(key: &str) -> (r: String)
    ensures
        r@ == hex_lower(sha256_digest(key.spec_bytes())).take(24),
{
    let h = sha256_hex(key.as_bytes());
    let v = chars_of(h.as_str());
    let t = slice_chars(&v, 0, 24);
    string_of(&t)
}

/// The cover image extensions, in the order they are looked for.
pub open spec fn image_extensions() -> Seq<Seq<char>> {
    crate::catalog::cover_extensions()
}

/// The keys a cover fetched from a provider is cached under: by Modrinth id
/// (with `_` and with `-`), then by CurseForge id, for the ids that are there
/// and not empty.
pub open spec fn platform_prefixes(modrinth_id: Option<Seq<char>>, curseforge_id: Option<Seq<char>>) -> Seq<Seq<char>> {
    let m = if crate::catalog::non_empty_id(modrinth_id) {
        seq!["modrinth_"@ + modrinth_id.unwrap(), "modrinth-"@ + modrinth_id.unwrap()]
    } else {
        Seq::empty()
    };
    let c = if crate::catalog::non_empty_id(curseforge_id) {
        seq!["curseforge_"@ + curseforge_id.unwrap(), "curseforge-"@ + curseforge_id.unwrap()]
    } else {
        Seq::empty()
    };
    m + c
}

fn prefixed(prefix: &str, id: &str) -> (r: String)
    ensures
        r@ == prefix@ + id@,
{
    let mut out = prefix.to_string();
    out.append(id);
    out
}

pub fn cover_platform_prefixes(modrinth_id: Option<&str>, curseforge_id: Option<&str>) -> (r: Vec<String>)
    ensures
        string_views(r@) == platform_prefixes(
            crate::catalog::opt_str_view(modrinth_id),
            crate::catalog::opt_str_view(curseforge_id),
        ),
{
    proof {
        reveal_strlit("modrinth_");
        reveal_strlit("modrinth-");
        reveal_strlit("curseforge_");
        reveal_strlit("curseforge-");
    }
    let mut r: Vec<String> = Vec::new();
    if let Some(id) = modrinth_id {
        if chars_of(id).len() > 0 {
            r.push(prefixed("modrinth_", id));
            r.push(prefixed("modrinth-", id));
        }
    }
    let ghost mid = string_views(r@);
    if let Some(id) = curseforge_id {
        if chars_of(id).len() > 0 {
            r.push(prefixed("curseforge_", id));
            r.push(prefixed("curseforge-", id));
        }
    }
    proof {
        let m = crate::catalog::opt_str_view(modrinth_id);
        let c = crate::catalog::opt_str_view(curseforge_id);
        assert(mid =~= (if crate::catalog::non_empty_id(m) {
            seq!["modrinth_"@ + m.unwrap(), "modrinth-"@ + m.unwrap()]
        } else {
            Seq::<Seq<char>>::empty()
        }));
        assert(string_views(r@) =~= platform_prefixes(m, c));
    }
    r
}

/// The first listed name that is a cover under `prefix`.
pub open spec fn first_match(names: Seq<Seq<char>>, prefix: Seq<char>, i: int) -> bool {
    &&& 0 <= i < names.len()
    &&& is_cover_file(names[i], prefix)
    &&& forall|j: int| 0 <= j < i ==> !is_cover_file(#[trigger] names[j], prefix)
}

pub open spec fn no_match(names: Seq<Seq<char>>, prefix: Seq<char>) -> bool {
    forall|j: int| 0 <= j < names.len() ==> !is_cover_file(#[trigger] names[j], prefix)
}

/// The first prefix that has a cover in the listing leads to that cover.
pub open spec fn by_prefixes(names: Seq<Seq<char>>, prefixes: Seq<Seq<char>>, i: int) -> bool {
    exists|p: int|
        0 <= p < prefixes.len() && first_match(names, #[trigger] prefixes[p], i) && forall|q: int|
            0 <= q < p ==> no_match(names, #[trigger] prefixes[q])
}

pub open spec fn no_prefix_match(names: Seq<Seq<char>>, prefixes: Seq<Seq<char>>) -> bool {
    forall|q: int| 0 <= q < prefixes.len() ==> no_match(names, #[trigger] prefixes[q])
}

/// The file `<stem>.<ext>` for the first image extension that is listed.
pub open spec fn by_stem(names: Seq<Seq<char>>, stem: Seq<char>, i: int) -> bool {
    &&& 0 <= i < names.len()
    &&& exists|e: int|
        0 <= e < image_extensions().len() && names[i] == stem + "."@ + #[trigger] image_extensions()[e]
            && forall|f: int| 0 <= f < e ==> !names.contains(stem + "."@ + #[trigger] image_extensions()[f])
}

pub open spec fn no_stem_file(names: Seq<Seq<char>>, stem: Seq<char>) -> bool {
    forall|f: int| 0 <= f < image_extensions().len() ==> !names.contains(stem + "."@ + #[trigger] image_extensions()[f])
}

/// The cover found in a folder: by the first prefix that has a cover (the
/// first such file in listing order), else the file `<stem>.<ext>` for the
/// first image extension that is there.
pub open spec fn found_in_folder(names: Seq<Seq<char>>, prefixes: Seq<Seq<char>>, stem: Seq<char>, r: Option<usize>) -> bool {
    match r {
        Some(i) => by_prefixes(names, prefixes, i as int) || (no_prefix_match(names, prefixes) && by_stem(
            names,
            stem,
            i as int,
        )),
        None => no_prefix_match(names, prefixes) && no_stem_file(names, stem),
    }
}

fn position_of(names: &Vec<String>, name: &String) -> (r: Option<usize>)
    ensures
        match r {
            Some(i) => i < names@.len() && names@[i as int]@ == name@,
            None => !string_views(names@).contains(name@),
        },
{
    let mut i: usize = 0;
    while i < names.len()
        invariant
            i <= names@.len(),
            forall|j: int| 0 <= j < i ==> names@[j]@ != name@,
        decreases names@.len() - i,
    {
        if names[i] == *name {
            return Some(i);
        }
        i = i + 1;
    }
    proof {
        if string_views(names@).contains(name@) {
            let j = choose|j: int| 0 <= j < names@.len() && string_views(names@)[j] == name@;
            assert(names@[j]@ == name@);
        }
    }
    None
}

/// The position of the cover under the first prefix that has one.
pub fn find_cover_by_prefixes(names: &Vec<String>, prefixes: &Vec<String>) -> (r: Option<usize>)
    ensures
        match r {
            Some(i) => by_prefixes(string_views(names@), string_views(prefixes@), i as int),
            None => no_prefix_match(string_views(names@), string_views(prefixes@)),
        },
{
    let ghost nv = string_views(names@);
    let ghost pv = string_views(prefixes@);
    let mut p: usize = 0;
    while p < prefixes.len()
        invariant
            p <= prefixes@.len(),
            nv == string_views(names@),
            pv == string_views(prefixes@),
            forall|q: int| 0 <= q < p ==> no_match(nv, #[trigger] pv[q]),
        decreases prefixes@.len() - p,
    {
        match crate::catalog::find_catalog_cover(names, prefixes[p].as_str()) {
            Some(i) => {
                assert(first_match(nv, pv[p as int], i as int)) by {
                    assert forall|j: int| 0 <= j < i implies !is_cover_file(#[trigger] nv[j], pv[p as int]) by {
                        assert(nv[j] == names@[j]@);
                    }
                }
                return Some(i);
            },
            None => {
                assert(no_match(nv, pv[p as int])) by {
                    assert forall|j: int| 0 <= j < nv.len() implies !is_cover_file(#[trigger] nv[j], pv[p as int]) by {
                        assert(nv[j] == names@[j]@);
                    }
                }
            },
        }
        p = p + 1;
    }
    None
}

/// The position, in a folder listing, of the cover of a mod.
pub fn find_cover_in_dir(names: &Vec<String>, prefixes: &Vec<String>, key: &str) -> (r: Option<usize>)
    ensures
        found_in_folder(string_views(names@), string_views(prefixes@), safe_stem(key@), r),
{
    let ghost nv = string_views(names@);
    let ghost pv = string_views(prefixes@);
    if let Some(i) = find_cover_by_prefixes(names, prefixes) {
        return Some(i);
    }
    let stem = safe_file_stem(key);
    proof {
        reveal_strlit("png");
        reveal_strlit("jpg");
        reveal_strlit("jpeg");
        reveal_strlit("webp");
        reveal_strlit("gif");
    }
    let exts: [&str; 5] = ["png", "jpg", "jpeg", "webp", "gif"];
    let mut e: usize = 0;
    while e < 5
        invariant
            e <= 5,
            nv == string_views(names@),
            pv == string_views(prefixes@),
            stem@ == safe_stem(key@),
            forall|k: int| 0 <= k < 5 ==> (#[trigger] exts@[k])@ == image_extensions()[k],
            no_prefix_match(nv, pv),
            forall|f: int| 0 <= f < e ==> !nv.contains(stem@ + "."@ + #[trigger] image_extensions()[f]),
        decreases 5 - e,
    {
        let name = crate::catalog::cover_file_name(stem.as_str(), exts[e]);
        match position_of(names, &name) {
            Some(i) => {
                assert(nv[i as int] == stem@ + "."@ + image_extensions()[e as int]);
                return Some(i);
            },
            None => {},
        }
        e = e + 1;
    }
    None
}

/// Where an existing cover of a mod was found.
pub enum CoverLocation {
    Manual(usize),
    Cache(usize),
    Catalog(usize),
}

pub open spec fn listing(o: Option<&Vec<String>>) -> Option<Seq<Seq<char>>> {
    match o {
        Some(v) => Some(string_views(v@)),
        None => None,
    }
}

/// An existing cover: one picked by hand (under the key's hash, else its
/// stem), else a cached one, else one of the catalogue's under a platform
/// prefix. A folder that is not there (no listing) has none.
pub open spec fn existing_cover_is(
    manual: Option<Seq<Seq<char>>>,
    cache: Option<Seq<Seq<char>>>,
    catalog: Option<Seq<Seq<char>>>,
    prefixes: Seq<Seq<char>>,
    stem: Seq<char>,
    hash: Seq<char>,
    r: Option<CoverLocation>,
) -> bool {
    let no_manual = manual is None || found_in_folder(manual.unwrap(), seq![hash], stem, None);
    let no_cache = cache is None || found_in_folder(cache.unwrap(), prefixes, stem, None);
    match r {
        Some(CoverLocation::Manual(i)) => manual is Some && found_in_folder(manual.unwrap(), seq![hash], stem, Some(i)),
        Some(CoverLocation::Cache(i)) => no_manual && cache is Some && found_in_folder(
            cache.unwrap(),
            prefixes,
            stem,
            Some(i),
        ),
        Some(CoverLocation::Catalog(i)) => no_manual && no_cache && catalog is Some && by_prefixes(
            catalog.unwrap(),
            prefixes,
            i as int,
        ),
        None => no_manual && no_cache && (catalog is None || no_prefix_match(catalog.unwrap(), prefixes)),
    }
}

pub fn existing_cover(
    manual: Option<&Vec<String>>,
    cache: Option<&Vec<String>>,
    catalog: Option<&Vec<String>>,
    prefixes: &Vec<String>,
    key: &str,
) -> (r: Option<CoverLocation>)
    ensures
        existing_cover_is(
            listing(manual),
            listing(cache),
            listing(catalog),
            string_views(prefixes@),
            safe_stem(key@),
            hex_lower(sha256_digest(key.spec_bytes())).take(24),
            r,
        ),
{
    let hash = hash_cover_key(key);
    let mut hashes: Vec<String> = Vec::new();
    let ghost hv = hash@;
    hashes.push(hash);
    assert(string_views(hashes@) =~= seq![hv]);
    if let Some(names) = manual {
        if let Some(i) = find_cover_in_dir(names, &hashes, key) {
            return Some(CoverLocation::Manual(i));
        }
    }
    if let Some(names) = cache {
        if let Some(i) = find_cover_in_dir(names, prefixes, key) {
            return Some(CoverLocation::Cache(i));
        }
    }
    if let Some(names) = catalog {
        if let Some(i) = find_cover_by_prefixes(names, prefixes) {
            return Some(CoverLocation::Catalog(i));
        }
    }
    None
}

/// Before downloading a cover: one of the catalogue's under a platform
/// prefix, else one already in the cover cache.
pub fn cover_before_download(
    catalog: Option<&Vec<String>>,
    cache: Option<&Vec<String>>,
    prefixes: &Vec<String>,
    key: &str,
) -> (r: Option<CoverLocation>)
    ensures
        match r {
            Some(CoverLocation::Catalog(i)) => catalog is Some && by_prefixes(
                listing(catalog).unwrap(),
                string_views(prefixes@),
                i as int,
            ),
            Some(CoverLocation::Cache(i)) => (catalog is None || no_prefix_match(
                listing(catalog).unwrap(),
                string_views(prefixes@),
            )) && cache is Some && found_in_folder(
                listing(cache).unwrap(),
                string_views(prefixes@),
                safe_stem(key@),
                Some(i),
            ),
            Some(CoverLocation::Manual(_)) => false,
            None => (catalog is None || no_prefix_match(listing(catalog).unwrap(), string_views(prefixes@))) && (
            cache is None || found_in_folder(listing(cache).unwrap(), string_views(prefixes@), safe_stem(key@), None)),
        },
{
    if let Some(names) = catalog {
        if let Some(i) = find_cover_by_prefixes(names, prefixes) {
            return Some(CoverLocation::Catalog(i));
        }
    }
    if let Some(names) = cache {
        if let Some(i) = find_cover_in_dir(names, prefixes, key) {
            return Some(CoverLocation::Cache(i));
        }
    }
    None
}

/// The name a downloaded cover is cached under in the cover folder: the first
/// platform prefix, else the key's stem, with the extension.
pub fn cache_cover_name(prefixes: &Vec<String>, key: &str, ext: &str) -> (r: String)
    ensures
        r@ == if prefixes@.len() > 0 {
            prefixes@[0]@ + "."@ + ext@
        } else {
            safe_stem(key@) + "."@ + ext@
        },
{
    if prefixes.len() > 0 {
        crate::catalog::cover_file_name(prefixes[0].as_str(), ext)
    } else {
        let stem = safe_file_stem(key);
        crate::catalog::cover_file_name(stem.as_str(), ext)
    }
}

/// A file of the cover folder is an older copy under one of the prefixes:
/// its lower-cased name starts with a lower-cased prefix and it has an image
/// extension.
pub open spec fn is_prefix_variant(name: Seq<char>, prefixes: Seq<Seq<char>>) -> bool {
    exists|p: int|
        0 <= p < prefixes.len() && crate::text::starts_with(lower(name), lower(#[trigger] prefixes[p]))
            && (file_extension(lower(name)) matches Some(e) && image_extensions().contains(e))
}

pub fn cover_prefix_variant(name: &str, prefixes: &Vec<String>) -> (r: bool)
    ensures
        r == is_prefix_variant(name@, string_views(prefixes@)),
{
    let n = to_lower(&chars_of(name));
    let ghost pv = string_views(prefixes@);
    let has_ext = crate::catalog::has_cover_extension(&n);
    let mut p: usize = 0;
    while p < prefixes.len()
        invariant
            p <= prefixes@.len(),
            pv == string_views(prefixes@),
            n@ == lower(name@),
            has_ext == (file_extension(n@) matches Some(e) && image_extensions().contains(e)),
            forall|q: int| 0 <= q < p ==> !(crate::text::starts_with(n@, lower(#[trigger] pv[q])) && has_ext),
        decreases prefixes@.len() - p,
    {
        let lp = to_lower(&chars_of(prefixes[p].as_str()));
        if crate::text::starts_with_chars(&n, &lp) && has_ext {
            assert(crate::text::starts_with(n@, lower(pv[p as int])));
            return true;
        }
        p = p + 1;
    }
    false
}

// ---------------------------------------------------------------------------
// A pass over the covers of all mods
// ---------------------------------------------------------------------------

/// What a pass over the covers did.
pub struct PrefetchReport {
    pub downloaded: u32,
    pub skipped: u32,
    pub failed: u32,
    pub errors: Vec<String>,
}

/// At most this many error messages are kept.
pub const MAX_REPORTED_ERRORS: usize = 12;

impl PrefetchReport {
    pub fn new() -> (r: PrefetchReport)
        ensures
            r.downloaded == 0,
            r.skipped == 0,
            r.failed == 0,
            r.errors@.len() == 0,
    {
        PrefetchReport { downloaded: 0, skipped: 0, failed: 0, errors: Vec::new() }
    }

    /// Counts a failure; its message is kept while fewer than twelve are.
    pub fn record_failure(&mut self, message: String)
        requires
            old(self).failed < u32::MAX,
        ensures
            final(self).failed == old(self).failed + 1,
            final(self).downloaded == old(self).downloaded,
            final(self).skipped == old(self).skipped,
            final(self).errors@ == if old(self).errors@.len() < 12 {
                old(self).errors@.push(message)
            } else {
                old(self).errors@
            },
    {
        self.failed = self.failed + 1;
        if self.errors.len() < MAX_REPORTED_ERRORS {
            self.errors.push(message);
        }
    }
}

/// What the pass does for one mod.
pub enum CoverStep {
    AlreadyCached,
    ThirdParty,
    Fetch,
}

/// A mod with a cover is skipped, as is one known to no provider; the others
/// get their cover fetched.
pub fn cover_step(has_cover: bool, has_modrinth_id: bool, has_curseforge_id: bool) -> (r: CoverStep)
    ensures
        r == if has_cover {
            CoverStep::AlreadyCached
        } else if !has_modrinth_id && !has_curseforge_id {
            CoverStep::ThirdParty
        } else {
            CoverStep::Fetch
        },
{
    if has_cover {
        CoverStep::AlreadyCached
    } else if !has_modrinth_id && !has_curseforge_id {
        CoverStep::ThirdParty
    } else {
        CoverStep::Fetch
    }
}

// ---------------------------------------------------------------------------
// Covers uploaded by the user
// ---------------------------------------------------------------------------

/// `base64::engine::general_purpose::STANDARD.decode`. That engine decodes
/// with the standard alphabet, requires canonical padding and refuses
/// trailing bits, so it accepts exactly the texts that standard base64
/// encoding writes: it gives back the bytes whose encoding the text is, and
/// fails on any other text.
#[verifier::external_body]
fn base64_decode(text: &str) -> (r: Option<Vec<u8>>)
    ensures
        match r {
            Some(b) => base64_standard(b@) == text@,
            None => forall|b: Seq<u8>| #[trigger] base64_standard(b) != text@,
        },
{
    base64::engine::general_purpose::STANDARD.decode(text).ok()
}

/// A data URL split at its first comma: the extension its media type calls
/// for, and the encoded text after the comma.
pub open spec fn data_url_parts(url: Seq<char>) -> Result<(Seq<char>, Seq<char>), Seq<char>> {
    match find(url, seq![',']) {
        None => Err("Не получилось прочитать файл обложки."@),
        Some(c) => {
            let meta = url.subrange(0, c);
            let encoded = url.subrange(c + 1, url.len() as int);
            let m = match strip_prefix(meta, "data:"@) {
                Some(rest) => rest,
                None => meta,
            };
            match ext_of_mime(split_by(m, seq![';'])[0]) {
                Some(ext) => Ok((ext, encoded)),
                None => Err("Поддерживаются PNG, JPG, WebP и GIF."@),
            }
        },
    }
}

pub fn split_data_url(data_url: &str) -> (r: Result<(String, String), String>)
    ensures
        match data_url_parts(data_url@) {
            Ok((ext, encoded)) => r matches Ok((e, t)) && e@ == ext && t@ == encoded,
            Err(m) => r matches Err(e) && e@ == m,
        },
{
    let v = chars_of(data_url);
    let comma = chars_of(",");
    let semi = chars_of(";");
    proof {
        reveal_strlit(",");
        reveal_strlit(";");
        assert(comma@ =~= seq![',']);
        assert(semi@ =~= seq![';']);
    }
    let c = match find_chars(&v, &comma) {
        Some(c) => c,
        None => return Err("Не получилось прочитать файл обложки.".to_string()),
    };
    proof {
        crate::text::lemma_find_from_bounds(v@, comma@, 0);
        assert(find(v@, comma@) == Some(c as int));
        assert(crate::text::matches_at(v@, c as int, comma@));
        assert(comma@.len() == 1);
        assert(c < v@.len());
    }
    let n = v.len();
    let meta = slice_chars(&v, 0, c);
    let encoded = slice_chars(&v, c + 1, n);
    let m = match strip_prefix_chars(&meta, "data:") {
        Some(rest) => rest,
        None => meta,
    };
    proof {
        lemma_split_by_nonempty(m@, semi@);
    }
    let parts = split_chars(&m, &semi);
    let mime = string_of(&parts[0]);
    match cover_ext_from_mime(mime.as_str()) {
        Some(ext) => Ok((ext, string_of(&encoded))),
        None => Err("Поддерживаются PNG, JPG, WebP и GIF.".to_string()),
    }
}

/// The bytes of an uploaded cover, from what its text decoded to.
pub fn uploaded_cover_bytes(decoded: Option<Vec<u8>>) -> (r: Result<Vec<u8>, String>)
    ensures
        match decoded {
            None => r matches Err(e) && e@ == "Не получилось декодировать обложку."@,
            Some(b) => if b@.len() == 0 {
                r matches Err(e) && e@ == "Файл обложки пустой."@
            } else {
                r matches Ok(x) && x@ == b@
            },
        },
{
    match decoded {
        None => Err("Не получилось декодировать обложку.".to_string()),
        Some(b) => if b.len() == 0 {
            Err("Файл обложки пустой.".to_string())
        } else {
            Ok(b)
        },
    }
}

/// An uploaded cover read from its data URL: the extension to save it with
/// and its bytes, those whose standard base64 encoding is the text after the
/// comma; an error where that text is no such encoding, or encodes nothing.
pub fn read_uploaded_cover(data_url: &str) -> (r: Result<(String, Vec<u8>), String>)
    ensures
        match data_url_parts(data_url@) {
            Err(m) => r matches Err(e) && e@ == m,
            Ok((ext, encoded)) => {
                &&& (forall|b: Seq<u8>| #[trigger] base64_standard(b) != encoded) ==> (r matches Err(e) && e@
                    == "Не получилось декодировать обложку."@)
                &&& (exists|b: Seq<u8>| #[trigger] base64_standard(b) == encoded) ==> if encoded.len() == 0 {
                    r matches Err(e) && e@ == "Файл обложки пустой."@
                } else {
                    r matches Ok((x, y)) && x@ == ext && base64_standard(y@) == encoded
                }
            },
        },
{
    let (ext, encoded) = split_data_url(data_url)?;
    let decoded = base64_decode(encoded.as_str());
    proof {
        if decoded is Some {
            let b = decoded->0@;
            assert(base64_standard(b).len() == 0 <==> b.len() == 0);
        }
    }
    let bytes = uploaded_cover_bytes(decoded)?;
    Ok((ext, bytes))
}

/// The file a hand-picked cover is saved to.
pub fn uploaded_cover_name(key: &str, ext: &str) -> (r: String)
    ensures
        r@ == hex_lower(sha256_digest(key.spec_bytes())).take(24) + "."@ + ext@,
{
    let mut name = hash_cover_key(key);
    name.append(".");
    name.append(ext);
    name
}

/// The file names a mod's cover may have in a covers folder: its key as a
/// file stem with each cover extension.
pub fn cover_variant_names(key: &str) -> (r: Vec<String>)
    ensures
        string_views(r@) == crate::catalog::cover_extensions().map_values(|e: Seq<char>| safe_stem(key@) + "."@ + e),
{
    let stem = safe_file_stem(key);
    let exts = ["png", "jpg", "jpeg", "webp", "gif"];
    let mut r: Vec<String> = Vec::new();
    let mut i: usize = 0;
    proof {
        reveal_strlit("png");
        reveal_strlit("jpg");
        reveal_strlit("jpeg");
        reveal_strlit("webp");
        reveal_strlit("gif");
    }
    while i < 5
        invariant
            i <= 5,
            stem@ == safe_stem(key@),
            exts@.len() == 5,
            forall|k: int| 0 <= k < 5 ==> #[trigger] exts@[k]@ == crate::catalog::cover_extensions()[k],
            string_views(r@) == crate::catalog::cover_extensions().take(i as int).map_values(|e: Seq<char>| safe_stem(key@) + "."@ + e),
        decreases 5 - i,
    {
        let mut name = stem.clone();
        name.append(".");
        name.append(exts[i]);
        let ghost before = r@;
        r.push(name);
        proof {
            let ce = crate::catalog::cover_extensions();
            assert(ce.take(i + 1) =~= ce.take(i as int).push(ce[i as int]));
            assert(string_views(r@) =~= string_views(before).push(safe_stem(key@) + "."@ + ce[i as int]));
        }
        i = i + 1;
    }
    assert(crate::catalog::cover_extensions().take(5) =~= crate::catalog::cover_extensions());
    r
}

} // verus!
