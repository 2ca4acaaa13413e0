//! Searching Modrinth and CurseForge: the request addresses, the projects
//! found, and how several searches are merged.
use vstd::prelude::*;
use vstd::utf8::encode_utf8;
use crate::text::{chars_of, decimal, decimal_string, eq_str, opt_view, string_views, trim, trim_string, trimmed};
use crate::remote::{modrinth_matches, modrinth_project_matches, sort_candidates_by_relevance, ProviderCandidate, ProviderProject};
use crate::prefetch::{curseforge_cover_url_from_payload, i64_string, i64_text, trimmed_text, CurseforgeLogo};
use crate::instance_meta::InstanceTarget;
use crate::updates::{curseforge_loader_type, curseforge_loader_type_of};
use crate::source_switch::{clean, clean_opt, clean_string};

verus! {

// ---------------------------------------------------------------------------
// Addresses
// ---------------------------------------------------------------------------

/// A byte that stays as it is in a URL: ASCII letters, digits, `-`, `.`,
/// `_`, `~`.
pub open spec fn url_safe(b: u8) -> bool {
    (48 <= b <= 57) || (65 <= b <= 90) || (97 <= b <= 122) || b == 45 || b == 46 || b == 95 || b == 126
}

/// An upper-case hex digit.
pub open spec fn hex_upper(n: u8) -> char {
    if n < 10 {
        ((n + 48) as u8) as char
    } else {
        ((n + 55) as u8) as char
    }
}

/// Bytes percent-encoded: safe bytes as they are, every other byte as `%`
/// and two upper-case hex digits.
pub open spec fn url_encoded(bytes: Seq<u8>) -> Seq<char>
    decreases bytes.len(),
{
    if bytes.len() == 0 {
        Seq::empty()
    } else {
        let b = bytes.last();
        url_encoded(bytes.drop_last()) + if url_safe(b) {
            seq![b as char]
        } else {
            seq!['%', hex_upper(b / 16), hex_upper(b % 16)]
        }
    }
}

/// `urlencoding::encode`: the UTF-8 bytes of the text percent-encoded,
/// everything but ASCII letters, digits, `-`, `.`, `_` and `~` as `%XX` with
/// upper-case hex digits.
#[verifier::external_body]
fn url_encode(s: &str) -> (r: String)
    ensures
        r@ == url_encoded(encode_utf8(s@)),
{
    urlencoding::encode(s).into_owned()
}

proof fn lemma_url_encoded_empty(bytes: Seq<u8>)
    ensures
        url_encoded(bytes).len() == 0 <==> bytes.len() == 0,
    decreases bytes.len(),
{
    if bytes.len() > 0 {
        lemma_url_encoded_empty(bytes.drop_last());
    }
}

/// The facet that restricts a Modrinth search to mods.
pub open spec fn mod_facet() -> Seq<char> {
    "[[\"project_type:mod\"]]"@
}

/// The address of a Modrinth search for a text: none when the text is blank.
pub open spec fn modrinth_search_address(query_text: Seq<char>, limit: nat) -> Option<Seq<char>> {
    let q = url_encoded(encode_utf8(trim(query_text)));
    if q.len() == 0 {
        None
    } else {
        Some(
            "https://api.modrinth.com/v2/search?query="@ + q + "&limit="@ + decimal(limit) + "&index=relevance&facets="@
                + url_encoded(encode_utf8(mod_facet())),
        )
    }
}

pub fn modrinth_search_url(query_text: &str, limit: u64) -> (r: Option<String>)
    ensures
        opt_view(r) == modrinth_search_address(query_text@, limit as nat),
{
    let t = trim_string(query_text);
    let q = url_encode(t.as_str());
    if q.as_str().is_empty() {
        return None;
    }
    let facets = url_encode("[[\"project_type:mod\"]]");
    let mut out = "https://api.modrinth.com/v2/search?query=".to_string();
    out.append(q.as_str());
    out.append("&limit=");
    out.append(decimal_string(limit).as_str());
    out.append("&index=relevance&facets=");
    out.append(facets.as_str());
    Some(out)
}

/// The path of a CurseForge search (Minecraft mods) for a text: none when the
/// text is blank.
pub open spec fn curseforge_search_address(query_text: Seq<char>, limit: nat) -> Option<Seq<char>> {
    let q = url_encoded(encode_utf8(trim(query_text)));
    if q.len() == 0 {
        None
    } else {
        Some("mods/search?gameId=432&classId=6&searchFilter="@ + q + "&pageSize="@ + decimal(limit))
    }
}

pub fn curseforge_search_path(query_text: &str, limit: u64) -> (r: Option<String>)
    ensures
        opt_view(r) == curseforge_search_address(query_text@, limit as nat),
{
    let t = trim_string(query_text);
    let q = url_encode(t.as_str());
    if q.as_str().is_empty() {
        return None;
    }
    let mut out = "mods/search?gameId=432&classId=6&searchFilter=".to_string();
    out.append(q.as_str());
    out.append("&pageSize=");
    out.append(decimal_string(limit).as_str());
    Some(out)
}

/// The path listing a CurseForge project's files: a page of the given size
/// (fifty by default), for the instance's game version and loader where it
/// has them.
pub open spec fn curseforge_files_address(project_id: Seq<char>, page_size: Option<u32>, target: InstanceTarget) -> Seq<char> {
    let size = match page_size {
        Some(n) => n as nat,
        None => 50nat,
    };
    let base = "mods/"@ + project_id + "/files?pageSize="@ + decimal(size);
    let with_version = match clean_opt(target.minecraft_version) {
        Some(v) => base + "&gameVersion="@ + url_encoded(encode_utf8(v)),
        None => base,
    };
    match clean_opt(target.loader) {
        Some(l) => match curseforge_loader_type_of(l) {
            Some(kind) => with_version + "&modLoaderType="@ + decimal(kind as nat),
            None => with_version,
        },
        None => with_version,
    }
}

pub fn curseforge_files_path(project_id: &str, page_size: Option<u32>, target: &InstanceTarget) -> (r: String)
    ensures
        r@ == curseforge_files_address(project_id@, page_size, *target),
{
    let size: u64 = match page_size {
        Some(n) => n as u64,
        None => 50,
    };
    let mut out = "mods/".to_string();
    out.append(project_id);
    out.append("/files?pageSize=");
    out.append(decimal_string(size).as_str());
    if let Some(v) = crate::source_switch::clean_option(&target.minecraft_version) {
        out.append("&gameVersion=");
        out.append(url_encode(v.as_str()).as_str());
    }
    if let Some(l) = crate::source_switch::clean_option(&target.loader) {
        if let Some(kind) = curseforge_loader_type(l.as_str()) {
            out.append("&modLoaderType=");
            out.append(decimal_string(kind as u64).as_str());
        }
    }
    out
}

// ---------------------------------------------------------------------------
// Projects found
// ---------------------------------------------------------------------------

/// A hit of a Modrinth search: its `project_id` field (outer `None` where the
/// field is missing, inner `None` where it holds no text), and the texts of
/// its other fields.
pub struct ModrinthHit {
    pub project_id: Option<Option<String>>,
    pub slug: Option<String>,
    pub title: Option<String>,
    pub project_type: Option<String>,
    pub icon_url: Option<String>,
}

/// The id of a hit: its `project_id` where that field is there, else its slug.
pub open spec fn hit_id(hit: ModrinthHit) -> Option<Seq<char>> {
    match hit.project_id {
        Some(inner) => opt_view(inner),
        None => opt_view(hit.slug),
    }
}

fn hit_id_exec(hit: &ModrinthHit) -> (r: Option<String>)
    ensures
        opt_view(r) == hit_id(*hit),
{
    match &hit.project_id {
        Some(inner) => match inner {
            Some(s) => Some(s.clone()),
            None => None,
        },
        None => match &hit.slug {
            Some(s) => Some(s.clone()),
            None => None,
        },
    }
}

fn clone_opt(o: &Option<String>) -> (r: Option<String>)
    ensures
        opt_view(r) == opt_view(*o),
{
    match o {
        Some(s) => Some(s.clone()),
        None => None,
    }
}

/// The title shown for a project: its own unless missing or empty.
pub open spec fn shown_title(title: Option<String>) -> Seq<char> {
    match title {
        Some(t) => if t@.len() > 0 {
            t@
        } else {
            "Без названия"@
        },
        None => "Без названия"@,
    }
}

fn shown_title_exec(title: &Option<String>) -> (r: String)
    ensures
        r@ == shown_title(*title),
{
    match title {
        Some(t) => if t.as_str().is_empty() {
            "Без названия".to_string()
        } else {
            t.clone()
        },
        None => "Без названия".to_string(),
    }
}

/// A project found for matching: none for a hit without an id.
pub fn modrinth_hit_to_project(hit: &ModrinthHit) -> (r: Option<ProviderProject>)
    ensures
        r is Some <==> hit_id(*hit) is Some,
        r matches Some(p) ==> {
            &&& Some(p.id@) == hit_id(*hit)
            &&& opt_view(p.slug) == opt_view(hit.slug)
            &&& opt_view(p.title) == opt_view(hit.title)
            &&& opt_view(p.project_type) == opt_view(hit.project_type)
        },
{
    match hit_id_exec(hit) {
        Some(id) => Some(
            ProviderProject {
                id,
                slug: clone_opt(&hit.slug),
                title: clone_opt(&hit.title),
                project_type: clone_opt(&hit.project_type),
            },
        ),
        None => None,
    }
}

/// The candidate a Modrinth hit offers: only mods with an id are offered.
pub open spec fn modrinth_candidate_is(hit: ModrinthHit, c: ProviderCandidate) -> bool {
    &&& Some(c.id@) == hit_id(hit)
    &&& opt_view(c.slug) == opt_view(hit.slug)
    &&& c.title@ == shown_title(hit.title)
    &&& c.summary is None
    &&& opt_view(c.icon_url) == trimmed_text(hit.icon_url)
    &&& !c.exact_file_match
    &&& c.match_score == 0
}

fn trimmed_text_exec(o: &Option<String>) -> (r: Option<String>)
    ensures
        opt_view(r) == trimmed_text(*o),
{
    match o {
        Some(s) => {
            let t = trim_string(s.as_str());
            if t.as_str().is_empty() {
                None
            } else {
                Some(t)
            }
        },
        None => None,
    }
}

pub fn modrinth_hit_candidate(hit: &ModrinthHit) -> (r: Option<ProviderCandidate>)
    ensures
        r is Some <==> (hit_id(*hit) is Some && opt_view(hit.project_type) == Some("mod"@)),
        r matches Some(c) ==> modrinth_candidate_is(*hit, c),
{
    let id = match hit_id_exec(hit) {
        Some(id) => id,
        None => return None,
    };
    let is_mod = match &hit.project_type {
        Some(t) => {
            let tv = chars_of(t.as_str());
            eq_str(&tv, "mod")
        },
        None => false,
    };
    if !is_mod {
        return None;
    }
    Some(
        ProviderCandidate {
            id,
            slug: clone_opt(&hit.slug),
            title: shown_title_exec(&hit.title),
            summary: None,
            icon_url: trimmed_text_exec(&hit.icon_url),
            exact_file_match: false,
            match_score: 0,
        },
    )
}

/// A hit offers a candidate: it is a mod with an id.
pub open spec fn offers_candidate(hit: ModrinthHit) -> bool {
    hit_id(hit) is Some && opt_view(hit.project_type) == Some("mod"@)
}

/// The hits that offer candidates, in order.
pub open spec fn offering_hits(hits: Seq<ModrinthHit>) -> Seq<ModrinthHit>
    decreases hits.len(),
{
    if hits.len() == 0 {
        Seq::empty()
    } else if offers_candidate(hits.last()) {
        offering_hits(hits.drop_last()).push(hits.last())
    } else {
        offering_hits(hits.drop_last())
    }
}

/// The candidates of a page of Modrinth hits, in order.
pub fn modrinth_hits_candidates(hits: &Vec<ModrinthHit>) -> (r: Vec<ProviderCandidate>)
    ensures
        r@.len() == offering_hits(hits@).len(),
        forall|i: int| 0 <= i < r@.len() ==> modrinth_candidate_is(offering_hits(hits@)[i], #[trigger] r@[i]),
{
    let mut r: Vec<ProviderCandidate> = Vec::new();
    let mut i: usize = 0;
    while i < hits.len()
        invariant
            i <= hits@.len(),
            r@.len() == offering_hits(hits@.take(i as int)).len(),
            forall|k: int| 0 <= k < r@.len() ==> modrinth_candidate_is(offering_hits(hits@.take(i as int))[k], #[trigger] r@[k]),
        decreases hits@.len() - i,
    {
        assert(hits@.take(i + 1).drop_last() =~= hits@.take(i as int));
        assert(hits@.take(i + 1).last() == hits@[i as int]);
        if let Some(c) = modrinth_hit_candidate(&hits[i]) {
            r.push(c);
        }
        i = i + 1;
    }
    assert(hits@.take(hits@.len() as int) =~= hits@);
    r
}

/// The icon a search for a mod's cover finds: that of the first hit that is
/// the mod, where it has one.
pub open spec fn icon_of_hit(hit: ModrinthHit, display_name: Seq<char>) -> Option<Seq<char>> {
    if modrinth_matches(opt_view(hit.project_type), opt_view(hit.title), opt_view(hit.slug), display_name) {
        trimmed_text(hit.icon_url)
    } else {
        None
    }
}

pub open spec fn first_icon(hits: Seq<ModrinthHit>, display_name: Seq<char>) -> Option<Seq<char>>
    decreases hits.len(),
{
    if hits.len() == 0 {
        None
    } else if icon_of_hit(hits[0], display_name) is Some {
        icon_of_hit(hits[0], display_name)
    } else {
        first_icon(hits.drop_first(), display_name)
    }
}

pub fn modrinth_search_icon_pick(hits: &Vec<ModrinthHit>, display_name: &str) -> (r: Option<String>)
    ensures
        opt_view(r) == first_icon(hits@, display_name@),
{
    let mut i: usize = 0;
    assert(hits@.subrange(0, hits@.len() as int) =~= hits@);
    while i < hits.len()
        invariant
            i <= hits@.len(),
            first_icon(hits@, display_name@) == first_icon(hits@.subrange(i as int, hits@.len() as int), display_name@),
        decreases hits@.len() - i,
    {
        let hit = &hits[i];
        let project = ProviderProject {
            id: match hit_id_exec(hit) {
                Some(id) => id,
                None => String::new(),
            },
            slug: clone_opt(&hit.slug),
            title: clone_opt(&hit.title),
            project_type: clone_opt(&hit.project_type),
        };
        let ghost rest = hits@.subrange(i as int, hits@.len() as int);
        assert(rest[0] == hits@[i as int]);
        assert(rest.drop_first() =~= hits@.subrange(i + 1, hits@.len() as int));
        if modrinth_project_matches(&project, display_name) {
            if let Some(icon) = trimmed_text_exec(&hit.icon_url) {
                return Some(icon);
            }
        }
        i = i + 1;
    }
    None
}

/// A hit of a CurseForge search: its numeric id, name, slug and logo.
pub struct CurseforgeHit {
    pub id: Option<i64>,
    pub name: Option<String>,
    pub slug: Option<String>,
    pub logo: Option<CurseforgeLogo>,
}

/// The icon of a CurseForge project: the logo's thumbnail, else the logo.
pub open spec fn logo_icon(logo: Option<CurseforgeLogo>) -> Option<Seq<char>> {
    match logo {
        Some(l) => if trimmed_text(l.thumbnail_url) is Some {
            trimmed_text(l.thumbnail_url)
        } else {
            trimmed_text(l.url)
        },
        None => None,
    }
}

/// The candidate a CurseForge hit offers under id `id`.
pub open spec fn curseforge_candidate_is(hit: CurseforgeHit, id: Seq<char>, c: ProviderCandidate) -> bool {
    &&& c.id@ == id
    &&& opt_view(c.slug) == opt_view(hit.slug)
    &&& c.title@ == shown_title(hit.name)
    &&& c.summary is None
    &&& opt_view(c.icon_url) == logo_icon(hit.logo)
    &&& !c.exact_file_match
    &&& c.match_score == 0
}

fn curseforge_candidate_with_id(hit: &CurseforgeHit, id: String) -> (r: ProviderCandidate)
    ensures
        curseforge_candidate_is(*hit, id@, r),
{
    let icon = match &hit.logo {
        Some(l) => curseforge_cover_url_from_payload(Some(l)),
        None => None,
    };
    ProviderCandidate {
        id,
        slug: clone_opt(&hit.slug),
        title: shown_title_exec(&hit.name),
        summary: None,
        icon_url: icon,
        exact_file_match: false,
        match_score: 0,
    }
}

/// The candidate of a CurseForge search hit: none without a numeric id.
pub fn curseforge_hit_candidate(hit: &CurseforgeHit) -> (r: Option<ProviderCandidate>)
    ensures
        r is Some <==> hit.id is Some,
        r matches Some(c) ==> curseforge_candidate_is(*hit, i64_text(hit.id.unwrap()), c),
{
    match hit.id {
        Some(n) => Some(curseforge_candidate_with_id(hit, i64_string(n))),
        None => None,
    }
}

/// The candidate for a CurseForge project looked up by id: none without
/// project data.
pub fn curseforge_candidate_for_project(project_id: &str, data: Option<&CurseforgeHit>) -> (r: Option<ProviderCandidate>)
    ensures
        r is Some <==> data is Some,
        r matches Some(c) ==> curseforge_candidate_is(*data.unwrap(), project_id@, c),
{
    match data {
        Some(d) => Some(curseforge_candidate_with_id(d, project_id.to_string())),
        None => None,
    }
}

/// The candidate for a Modrinth project looked up by id.
pub fn modrinth_candidate_for_project(project_id: &str, slug: Option<String>, title: Option<String>, icon_url: Option<String>) -> (r: ProviderCandidate)
    ensures
        r.id@ == project_id@,
        r.slug == slug,
        r.title@ == shown_title(title),
        r.summary is None,
        opt_view(r.icon_url) == trimmed_text(icon_url),
        !r.exact_file_match,
        r.match_score == 0,
{
    ProviderCandidate {
        id: project_id.to_string(),
        slug,
        title: shown_title_exec(&title),
        summary: None,
        icon_url: trimmed_text_exec(&icon_url),
        exact_file_match: false,
        match_score: 0,
    }
}

// ---------------------------------------------------------------------------
// Merging searches
// ---------------------------------------------------------------------------

/// At most this many candidates are offered.
pub const PROVIDER_SEARCH_LIMIT: usize = 5;

pub open spec fn candidate_ids(cs: Seq<ProviderCandidate>) -> Seq<Seq<char>> {
    cs.map_values(|c: ProviderCandidate| c.id@)
}

/// Adds the candidates of one search whose ids were not seen yet, in order.
pub fn merge_search_batch(candidates: &mut Vec<ProviderCandidate>, batch: Vec<ProviderCandidate>)
    ensures
        forall|i: int| 0 <= i < old(candidates)@.len() ==> #[trigger] final(candidates)@[i] == old(candidates)@[i],
        old(candidates)@.len() <= final(candidates)@.len(),
        forall|i: int, j: int|
            0 <= i < j < final(candidates)@.len() && old(candidates)@.len() <= j ==> (#[trigger] final(candidates)@[i]).id@
                != (#[trigger] final(candidates)@[j]).id@,
        forall|i: int|
            old(candidates)@.len() <= i < final(candidates)@.len() ==> batch@.contains(#[trigger] final(candidates)@[i]),
        forall|k: int|
            0 <= k < batch@.len() ==> candidate_ids(final(candidates)@).contains(#[trigger] batch@[k].id@),
{
    let mut batch = batch;
    let ghost all = batch@;
    let n = batch.len();
    let mut taken: usize = 0;
    while batch.len() > 0
        invariant
            all.len() == n,
            taken + batch@.len() == all.len(),
            batch@ == all.subrange(taken as int, all.len() as int),
            forall|i: int| 0 <= i < old(candidates)@.len() ==> #[trigger] candidates@[i] == old(candidates)@[i],
            old(candidates)@.len() <= candidates@.len(),
            forall|i: int, j: int|
                0 <= i < j < candidates@.len() && old(candidates)@.len() <= j ==> (#[trigger] candidates@[i]).id@
                    != (#[trigger] candidates@[j]).id@,
            forall|i: int| old(candidates)@.len() <= i < candidates@.len() ==> all.contains(#[trigger] candidates@[i]),
            forall|k: int| 0 <= k < taken ==> candidate_ids(candidates@).contains(#[trigger] all[k].id@),
        decreases batch@.len(),
    {
        let c = batch.remove(0);
        proof {
            assert(c == all[taken as int]);
        }
        let mut seen = false;
        let mut i: usize = 0;
        while i < candidates.len()
            invariant
                i <= candidates@.len(),
                !seen ==> forall|k: int| 0 <= k < i ==> (#[trigger] candidates@[k]).id@ != c.id@,
                seen ==> candidate_ids(candidates@).contains(c.id@),
            decreases candidates@.len() - i,
        {
            if candidates[i].id == c.id {
                seen = true;
                proof {
                    assert(candidate_ids(candidates@)[i as int] == c.id@);
                }
            }
            i = i + 1;
        }
        let ghost before = candidates@;
        let ghost cv = c;
        if !seen {
            candidates.push(c);
            proof {
                assert(candidate_ids(candidates@)[candidates@.len() - 1] == cv.id@);
                assert forall|k: int| 0 <= k < taken implies candidate_ids(candidates@).contains(#[trigger] all[k].id@) by {
                    let j = choose|j: int| 0 <= j < before.len() && candidate_ids(before)[j] == all[k].id@;
                    assert(candidate_ids(candidates@)[j] == all[k].id@);
                }
                assert(all.contains(cv)) by {
                    assert(all[taken as int] == cv);
                }
            }
        }
        proof {
            assert(batch@ =~= all.subrange(taken + 1, all.len() as int));
        }
        taken = taken + 1;
    }
}

/// The candidates offered: sorted by relevance, at most five.
pub fn finish_candidates(display_name: &str, candidates: &mut Vec<ProviderCandidate>)
    ensures
        final(candidates)@.len() == if old(candidates)@.len() < PROVIDER_SEARCH_LIMIT {
            old(candidates)@.len()
        } else {
            PROVIDER_SEARCH_LIMIT as nat
        },
        crate::remote::sorted_by_score(final(candidates)@),
{
    sort_candidates_by_relevance(display_name, candidates);
    proof {
        broadcast use vstd::seq_lib::group_to_multiset_ensures;
        assert(candidates@.len() == old(candidates)@.len()) by {
            assert(candidates@.to_multiset().len() == crate::remote::scored(display_name@, old(candidates)@).to_multiset().len());
        }
    }
    candidates.truncate(PROVIDER_SEARCH_LIMIT);
}

// ---------------------------------------------------------------------------
// Batch requests
// ---------------------------------------------------------------------------

/// The non-blank ids, each once, in the order first met.
pub open spec fn unique_ids(ids: Seq<Seq<char>>) -> Seq<Seq<char>>
    decreases ids.len(),
{
    if ids.len() == 0 {
        Seq::empty()
    } else {
        let prev = unique_ids(ids.drop_last());
        let id = ids.last();
        if trim(id).len() == 0 || prev.contains(id) {
            prev
        } else {
            prev.push(id)
        }
    }
}

fn contains_view(v: &Vec<String>, x: &String) -> (r: bool)
    ensures
        r == string_views(v@).contains(x@),
{
    let mut i: usize = 0;
    while i < v.len()
        invariant
            i <= v@.len(),
            forall|j: int| 0 <= j < i ==> string_views(v@)[j] != x@,
        decreases v@.len() - i,
    {
        if v[i] == *x {
            assert(string_views(v@)[i as int] == x@);
            return true;
        }
        i = i + 1;
    }
    false
}

pub fn unique_batch_ids(ids: &Vec<String>) -> (r: Vec<String>)
    ensures
        string_views(r@) == unique_ids(string_views(ids@)),
{
    let ghost iv = string_views(ids@);
    let mut r: Vec<String> = Vec::new();
    let mut i: usize = 0;
    while i < ids.len()
        invariant
            i <= ids@.len(),
            iv == string_views(ids@),
            string_views(r@) == unique_ids(iv.take(i as int)),
        decreases ids@.len() - i,
    {
        assert(iv.take(i + 1).drop_last() =~= iv.take(i as int));
        assert(iv.take(i + 1).last() == ids@[i as int]@);
        let blank = trimmed(ids[i].as_str()).len() == 0;
        if !blank && !contains_view(&r, &ids[i]) {
            let ghost before = r@;
            r.push(ids[i].clone());
            assert(string_views(r@) =~= string_views(before).push(ids@[i as int]@));
        }
        i = i + 1;
    }
    assert(iv.take(iv.len() as int) =~= iv);
    r
}

/// Each non-blank id is asked for exactly once: the batch ids hold no id
/// twice, and every non-blank id given is among them.
pub proof fn lemma_batch_ids_once(ids: Seq<Seq<char>>)
    ensures
        unique_ids(ids).no_duplicates(),
        forall|k: int| 0 <= k < ids.len() && trim(#[trigger] ids[k]).len() > 0 ==> unique_ids(ids).contains(ids[k]),
        forall|x: Seq<char>| #[trigger] unique_ids(ids).contains(x) ==> ids.contains(x) && trim(x).len() > 0,
    decreases ids.len(),
{
    if ids.len() > 0 {
        let prev = ids.drop_last();
        lemma_batch_ids_once(prev);
        assert forall|k: int| 0 <= k < ids.len() && trim(#[trigger] ids[k]).len() > 0 implies unique_ids(ids).contains(ids[k]) by {
            if k < ids.len() - 1 {
                assert(prev[k] == ids[k]);
                let j = choose|j: int| 0 <= j < unique_ids(prev).len() && unique_ids(prev)[j] == ids[k];
                if !(trim(ids.last()).len() == 0 || unique_ids(prev).contains(ids.last())) {
                    assert(unique_ids(ids)[j] == ids[k]);
                }
            } else {
                if !(trim(ids.last()).len() == 0 || unique_ids(prev).contains(ids.last())) {
                    assert(unique_ids(ids)[unique_ids(prev).len() as int] == ids[k]);
                }
            }
        }
        assert forall|x: Seq<char>| #[trigger] unique_ids(ids).contains(x) implies ids.contains(x) && trim(x).len() > 0 by {
            let j = choose|j: int| 0 <= j < unique_ids(ids).len() && unique_ids(ids)[j] == x;
            if unique_ids(prev).contains(x) {
                let q = choose|q: int| 0 <= q < prev.len() && prev[q] == x;
                assert(ids[q] == x);
            } else {
                assert(j == unique_ids(prev).len());
                assert(ids[ids.len() - 1] == x);
            }
        }
    }
}

/// No CurseForge id is asked for twice.
pub proof fn lemma_numeric_batch_ids_once(ids: Seq<Seq<char>>)
    ensures
        unique_numeric_ids(ids).no_duplicates(),
    decreases ids.len(),
{
    if ids.len() > 0 {
        lemma_numeric_batch_ids_once(ids.drop_last());
    }
}

/// At most this many ids go into one batch request.
pub const BATCH_SIZE: usize = 50;

/// The ids split into consecutive batches of fifty (the last may be shorter).
pub fn batch_chunks(ids: &Vec<String>) -> (r: Vec<Vec<String>>)
    ensures
        forall|k: int| 0 <= k < r@.len() ==> 0 < (#[trigger] r@[k])@.len() <= BATCH_SIZE,
        forall|k: int| 0 <= k && k + 1 < r@.len() ==> (#[trigger] r@[k])@.len() == BATCH_SIZE,
        forall|k: int|
            0 <= k < r@.len() ==> string_views((#[trigger] r@[k])@) == string_views(ids@).subrange(
                k * 50,
                k * 50 + r@[k]@.len(),
            ),
        r@.len() * 50 >= ids@.len(),
        r@.len() == 0 || (r@.len() - 1) * 50 + r@.last()@.len() == ids@.len(),
{
    let mut r: Vec<Vec<String>> = Vec::new();
    let mut start: usize = 0;
    while start < ids.len()
        invariant
            start <= ids@.len(),
            start == r@.len() * 50,
            forall|k: int| 0 <= k < r@.len() ==> (#[trigger] r@[k])@.len() == BATCH_SIZE,
            forall|k: int|
                0 <= k < r@.len() ==> string_views((#[trigger] r@[k])@) == string_views(ids@).subrange(k * 50, k * 50 + 50),
        decreases ids@.len() - start,
    {
        let end = if ids.len() - start > BATCH_SIZE {
            start + BATCH_SIZE
        } else {
            ids.len()
        };
        let mut chunk: Vec<String> = Vec::new();
        let mut i: usize = start;
        while i < end
            invariant
                start <= i <= end <= ids@.len(),
                string_views(chunk@) == string_views(ids@).subrange(start as int, i as int),
            decreases end - i,
        {
            let ghost before = chunk@;
            chunk.push(ids[i].clone());
            assert(string_views(chunk@) =~= string_views(before).push(ids@[i as int]@));
            assert(string_views(ids@).subrange(start as int, i + 1) =~= string_views(ids@).subrange(start as int, i as int).push(ids@[i as int]@));
            i = i + 1;
        }
        if end < ids.len() {
            r.push(chunk);
            start = end;
        } else {
            let ghost before = r@;
            r.push(chunk);
            proof {
                assert forall|k: int| 0 <= k < r@.len() implies 0 < (#[trigger] r@[k])@.len() <= BATCH_SIZE by {
                    if k < before.len() {
                        assert(r@[k] == before[k]);
                    }
                }
                assert forall|k: int| 0 <= k < r@.len() implies string_views((#[trigger] r@[k])@) == string_views(ids@).subrange(
                    k * 50,
                    k * 50 + r@[k]@.len(),
                ) by {
                    if k < before.len() {
                        assert(r@[k] == before[k]);
                    }
                }
                assert forall|k: int| 0 <= k && k + 1 < r@.len() implies (#[trigger] r@[k])@.len() == BATCH_SIZE by {
                    assert(r@[k] == before[k]);
                }
            }
            return r;
        }
    }
    proof {
        assert forall|k: int| 0 <= k < r@.len() implies string_views((#[trigger] r@[k])@) == string_views(ids@).subrange(
            k * 50,
            k * 50 + r@[k]@.len(),
        ) by {}
    }
    r
}

/// `str::parse::<i64>`: an optional sign, then ASCII digits, in range.
pub open spec fn parse_i64_of(s: Seq<char>) -> Option<i64> {
    let neg = s.len() > 0 && s[0] == '-';
    let body = if s.len() > 0 && (s[0] == '-' || s[0] == '+') {
        s.drop_first()
    } else {
        s
    };
    if body.len() == 0 || !crate::text::all_digits(body) {
        None
    } else if neg {
        if crate::text::digits_value(body) <= 0x8000_0000_0000_0000 {
            Some((0 - crate::text::digits_value(body)) as i64)
        } else {
            None
        }
    } else if crate::text::digits_value(body) <= 0x7fff_ffff_ffff_ffff {
        Some(crate::text::digits_value(body) as i64)
    } else {
        None
    }
}

pub fn parse_i64(text: &str) -> (r: Option<i64>)
    ensures
        r == parse_i64_of(text@),
{
    let v = chars_of(text);
    let neg = v.len() > 0 && v[0] == '-';
    let start: usize = if v.len() > 0 && (v[0] == '-' || v[0] == '+') {
        1
    } else {
        0
    };
    let body = crate::text::slice_chars(&v, start, v.len());
    proof {
        if start == 1 {
            assert(body@ =~= text@.drop_first());
        } else {
            assert(body@ =~= text@);
        }
    }
    if body.len() == 0 || body[0] == '+' {
        proof {
            if body@.len() > 0 {
                assert(!crate::text::is_digit(body@[0]));
            }
        }
        return None;
    }
    match crate::server_sync::parse_u64(&body) {
        Some(value) => {
            proof {
                assert(crate::text::unsigned_digits(body@) == body@);
            }
            if neg {
                if value <= 0x8000_0000_0000_0000u64 {
                    if value == 0x8000_0000_0000_0000u64 {
                        Some(i64::MIN)
                    } else {
                        Some(0i64 - (value as i64))
                    }
                } else {
                    None
                }
            } else if value <= 0x7fff_ffff_ffff_ffffu64 {
                Some(value as i64)
            } else {
                None
            }
        },
        None => {
            proof {
                assert(crate::text::unsigned_digits(body@) == body@);
            }
            None
        },
    }
}

/// The CurseForge ids that parse as numbers, each once, in the order first met.
pub open spec fn unique_numeric_ids(ids: Seq<Seq<char>>) -> Seq<i64>
    decreases ids.len(),
{
    if ids.len() == 0 {
        Seq::empty()
    } else {
        let prev = unique_numeric_ids(ids.drop_last());
        match parse_i64_of(ids.last()) {
            Some(n) => if prev.contains(n) {
                prev
            } else {
                prev.push(n)
            },
            None => prev,
        }
    }
}

pub fn unique_numeric_batch_ids(ids: &Vec<String>) -> (r: Vec<i64>)
    ensures
        r@ == unique_numeric_ids(string_views(ids@)),
{
    let ghost iv = string_views(ids@);
    let mut r: Vec<i64> = Vec::new();
    let mut i: usize = 0;
    while i < ids.len()
        invariant
            i <= ids@.len(),
            iv == string_views(ids@),
            r@ == unique_numeric_ids(iv.take(i as int)),
        decreases ids@.len() - i,
    {
        assert(iv.take(i + 1).drop_last() =~= iv.take(i as int));
        assert(iv.take(i + 1).last() == ids@[i as int]@);
        if let Some(n) = parse_i64(ids[i].as_str()) {
            let mut seen = false;
            let mut j: usize = 0;
            while j < r.len()
                invariant
                    j <= r@.len(),
                    seen <==> exists|q: int| 0 <= q < j && r@[q] == n,
                decreases r@.len() - j,
            {
                if r[j] == n {
                    seen = true;
                }
                j = j + 1;
            }
            assert(seen == r@.contains(n));
            if !seen {
                r.push(n);
            }
        }
        i = i + 1;
    }
    assert(iv.take(iv.len() as int) =~= iv);
    r
}

/// The key under which a fetched Modrinth project is found: a project is
/// filed under its id (a later project with that id replacing an earlier one)
/// and under its slug unless that key is taken.
pub open spec fn filed_at(projects: Seq<(Option<String>, Option<String>)>, key: Seq<char>) -> Option<int>
    decreases projects.len(),
{
    if projects.len() == 0 {
        None
    } else {
        let n = projects.len() - 1;
        let prev = filed_at(projects.drop_last(), key);
        let p = projects.last();
        let by_id = if opt_view(p.0) == Some(key) {
            Some(n)
        } else {
            prev
        };
        if opt_view(p.1) == Some(key) && by_id is None {
            Some(n)
        } else {
            by_id
        }
    }
}

pub open spec fn index_views(v: Seq<(String, usize)>) -> Seq<(Seq<char>, usize)> {
    v.map_values(|p: (String, usize)| (p.0@, p.1))
}

/// The index has at most one entry per key.
pub open spec fn index_keys_unique(v: Seq<(Seq<char>, usize)>) -> bool {
    forall|i: int, j: int| 0 <= i < j < v.len() ==> (#[trigger] v[i]).0 != (#[trigger] v[j]).0
}

/// The value under a key of an index.
pub open spec fn index_value(v: Seq<(Seq<char>, usize)>, key: Seq<char>) -> Option<int> {
    if exists|i: int| 0 <= i < v.len() && (#[trigger] v[i]).0 == key {
        Some((choose|i: int| 0 <= i < v.len() && (#[trigger] v[i]).0 == key) as int)
    } else {
        None
    }
}

fn find_index_key(v: &Vec<(String, usize)>, key: &String) -> (r: Option<usize>)
    ensures
        match r {
            Some(i) => i < v@.len() && v@[i as int].0@ == key@,
            None => forall|j: int| 0 <= j < v@.len() ==> v@[j].0@ != key@,
        },
{
    let mut i: usize = 0;
    while i < v.len()
        invariant
            i <= v@.len(),
            forall|j: int| 0 <= j < i ==> v@[j].0@ != key@,
        decreases v@.len() - i,
    {
        if v[i].0 == *key {
            return Some(i);
        }
        i = i + 1;
    }
    None
}

/// Files fetched projects (by id and slug) under the keys local mods use.
pub fn project_index(projects: &Vec<(Option<String>, Option<String>)>) -> (r: Vec<(String, usize)>)
    ensures
        index_keys_unique(index_views(r@)),
        forall|k: int| 0 <= k < r@.len() ==> (#[trigger] r@[k]).1 < projects@.len(),
        forall|key: Seq<char>| #![trigger filed_at(projects@, key)]
            match filed_at(projects@, key) {
                Some(n) => exists|i: int| 0 <= i < r@.len() && r@[i].0@ == key && #[trigger] r@[i].1 == n,
                None => forall|i: int| 0 <= i < r@.len() ==> (#[trigger] r@[i]).0@ != key,
            },
{
    let mut r: Vec<(String, usize)> = Vec::new();
    let mut p: usize = 0;
    while p < projects.len()
        invariant
            p <= projects@.len(),
            index_keys_unique(index_views(r@)),
            forall|k: int| 0 <= k < r@.len() ==> (#[trigger] r@[k]).1 < p,
            forall|key: Seq<char>| #![trigger filed_at(projects@.take(p as int), key)]
                match filed_at(projects@.take(p as int), key) {
                    Some(n) => exists|i: int| 0 <= i < r@.len() && r@[i].0@ == key && #[trigger] r@[i].1 == n,
                    None => forall|i: int| 0 <= i < r@.len() ==> (#[trigger] r@[i]).0@ != key,
                },
        decreases projects@.len() - p,
    {
        let ghost before = r@;
        let ghost prefix = projects@.take(p as int);
        let ghost next = projects@.take(p + 1);
        assert(next.drop_last() =~= prefix);
        assert(next.last() == projects@[p as int]);
        let ghost id_opt = opt_view(projects@[p as int].0);
        let ghost slug_opt = opt_view(projects@[p as int].1);
        let ghost mut id_pos: int = 0;
        if let Some(id) = &projects[p].0 {
            match find_index_key(&r, id) {
                Some(i) => {
                    r.set(i, (id.clone(), p));
                    proof {
                        id_pos = i as int;
                    }
                    proof {
                        assert forall|a: int, b: int| 0 <= a < b < r@.len() implies (#[trigger] index_views(r@)[a]).0
                            != (#[trigger] index_views(r@)[b]).0 by {
                            assert(index_views(before)[a].0 != index_views(before)[b].0);
                        }
                    }
                },
                None => {
                    r.push((id.clone(), p));
                    proof {
                        id_pos = before.len() as int;
                        assert forall|a: int, b: int| 0 <= a < b < r@.len() implies (#[trigger] index_views(r@)[a]).0
                            != (#[trigger] index_views(r@)[b]).0 by {
                            if b < before.len() {
                                assert(index_views(before)[a].0 != index_views(before)[b].0);
                            }
                        }
                    }
                },
            }
        }
        let ghost mid = r@;
        // After filing by id: every key but the id keeps its entries; the id
        // is filed at `p`.
        assert(forall|key: Seq<char>| #![trigger filed_at(prefix, key)]
            key != id_opt.unwrap_or(Seq::empty()) || id_opt is None ==> match filed_at(prefix, key) {
                Some(n) => exists|i: int| 0 <= i < mid.len() && mid[i].0@ == key && #[trigger] mid[i].1 == n,
                None => forall|i: int| 0 <= i < mid.len() ==> (#[trigger] mid[i]).0@ != key,
            }) by {
            assert forall|key: Seq<char>| #![trigger filed_at(prefix, key)]
                key != id_opt.unwrap_or(Seq::empty()) || id_opt is None implies match filed_at(prefix, key) {
                    Some(n) => exists|i: int| 0 <= i < mid.len() && mid[i].0@ == key && #[trigger] mid[i].1 == n,
                    None => forall|i: int| 0 <= i < mid.len() ==> (#[trigger] mid[i]).0@ != key,
                } by {
                match filed_at(prefix, key) {
                    Some(n) => {
                        let i = choose|i: int| 0 <= i < before.len() && before[i].0@ == key && #[trigger] before[i].1 == n;
                        assert(mid[i] == before[i]);
                    },
                    None => {
                        assert forall|i: int| 0 <= i < mid.len() implies (#[trigger] mid[i]).0@ != key by {
                            if i < before.len() && mid[i] == before[i] {
                            }
                        }
                    },
                }
            }
        }
        assert(id_opt is Some ==> 0 <= id_pos < mid.len() && Some(mid[id_pos].0@) == id_opt && mid[id_pos].1 == p);
        if let Some(slug) = &projects[p].1 {
            if find_index_key(&r, slug).is_none() {
                r.push((slug.clone(), p));
                proof {
                    assert forall|a: int, b: int| 0 <= a < b < r@.len() implies (#[trigger] index_views(r@)[a]).0
                        != (#[trigger] index_views(r@)[b]).0 by {
                        if b < mid.len() {
                            assert(index_views(mid)[a].0 != index_views(mid)[b].0);
                        }
                    }
                }
            }
        }
        proof {
            let after = r@;
            assert forall|k: int| 0 <= k < after.len() implies (#[trigger] after[k]).1 < p + 1 by {
                if k < mid.len() {
                    assert(after[k] == mid[k]);
                    if k < before.len() && mid[k] == before[k] {
                    }
                }
            }
            assert forall|key: Seq<char>| #![trigger filed_at(next, key)]
                match filed_at(next, key) {
                    Some(n) => exists|i: int| 0 <= i < after.len() && after[i].0@ == key && #[trigger] after[i].1 == n,
                    None => forall|i: int| 0 <= i < after.len() ==> (#[trigger] after[i]).0@ != key,
                } by {
                let pre = filed_at(prefix, key);
                if id_opt == Some(key) {
                    assert(after[id_pos] == mid[id_pos]);
                    assert(after[id_pos].1 == p as int);
                } else if slug_opt == Some(key) && pre is None {
                    assert(after.len() == mid.len() + 1);
                    assert(after[mid.len() as int].0@ == key);
                } else {
                    match pre {
                        Some(n) => {
                            let i = choose|i: int| 0 <= i < mid.len() && mid[i].0@ == key && #[trigger] mid[i].1 == n;
                            assert(after[i] == mid[i]);
                        },
                        None => {
                            assert forall|i: int| 0 <= i < after.len() implies (#[trigger] after[i]).0@ != key by {
                                if i < mid.len() {
                                    assert(after[i] == mid[i]);
                                }
                            }
                        },
                    }
                }
            }
        }
        p = p + 1;
    }
    assert(projects@.take(projects@.len() as int) =~= projects@);
    r
}

/// A lower-case hexadecimal digit.
pub open spec fn hex_digit_lower(n: int) -> char {
    if n < 10 {
        ('0' as int + n) as char
    } else {
        ('a' as int + (n - 10)) as char
    }
}

/// A character inside a JSON string as serde_json writes it: `"` and `\`
/// and the control characters escaped (the usual short escapes where there
/// is one, else `\u00` and two lower-case hex digits), any other as it is.
pub open spec fn json_escaped_char(c: char) -> Seq<char> {
    if c == '"' {
        seq!['\\', '"']
    } else if c == '\\' {
        seq!['\\', '\\']
    } else if c == '\u{8}' {
        seq!['\\', 'b']
    } else if c == '\t' {
        seq!['\\', 't']
    } else if c == '\n' {
        seq!['\\', 'n']
    } else if c == '\u{c}' {
        seq!['\\', 'f']
    } else if c == '\r' {
        seq!['\\', 'r']
    } else if (c as int) < 0x20 {
        seq!['\\', 'u', '0', '0', hex_digit_lower(c as int / 16), hex_digit_lower(c as int % 16)]
    } else {
        seq![c]
    }
}

pub open spec fn json_escaped(s: Seq<char>) -> Seq<char>
    decreases s.len(),
{
    if s.len() == 0 {
        Seq::empty()
    } else {
        json_escaped(s.drop_last()) + json_escaped_char(s.last())
    }
}

/// A JSON string literal.
pub open spec fn json_string_text(s: Seq<char>) -> Seq<char> {
    seq!['"'] + json_escaped(s) + seq!['"']
}

/// The compact JSON text of a list of texts: `["a","b"]`.
pub open spec fn json_text_list(items: Seq<Seq<char>>) -> Seq<char> {
    seq!['['] + crate::text::join(items.map_values(|s: Seq<char>| json_string_text(s)), ","@) + seq![']']
}

/// `serde_json::to_string` of a list of texts, which writes the compact form
/// above (see `format_escaped_str` and its `ESCAPE` table). The crate documents that serialisation fails only where a
/// `Serialize` impl fails or a map has non-string keys; a list of strings
/// written to its in-memory buffer does neither, so a text comes back.
#[verifier::external_body]
fn json_list(items: &Vec<String>) -> (r: Option<String>)
    ensures
        r is Some,
        r matches Some(t) ==> t@ == json_text_list(string_views(items@)),
{
    serde_json::to_string(items).ok()
}

/// Batch `c` of fifty ids.
pub open spec fn batch_of(u: Seq<Seq<char>>, c: int) -> Seq<Seq<char>> {
    u.subrange(c * 50, if (c + 1) * 50 < u.len() {
        (c + 1) * 50
    } else {
        u.len() as int
    })
}

/// The text is the JSON list of one batch of fifty ids.
pub open spec fn is_batch_param(u: Seq<Seq<char>>, t: Seq<char>) -> bool {
    exists|c: int| 0 <= c && c * 50 < u.len() && t == json_text_list(#[trigger] batch_of(u, c))
}

/// The `ids` parameters of the batch requests for some Modrinth ids: the
/// unique non-blank ids in batches of fifty, each batch as a JSON list.
pub fn batch_id_params(ids: &Vec<String>) -> (r: Vec<String>)
    ensures
        r@.len() <= ids@.len(),
        r@.len() * 50 >= unique_ids(string_views(ids@)).len(),
        r@.len() == 0 || (r@.len() - 1) * 50 < unique_ids(string_views(ids@)).len(),
        forall|k: int| 0 <= k < r@.len() ==> #[trigger] r@[k]@ == json_text_list(batch_of(unique_ids(string_views(ids@)), k)),
        forall|k: int| 0 <= k < r@.len() ==> is_batch_param(unique_ids(string_views(ids@)), #[trigger] r@[k]@),
{
    let unique = unique_batch_ids(ids);
    proof {
        lemma_unique_ids_len(string_views(ids@));
    }
    let chunks = batch_chunks(&unique);
    let ghost u = string_views(unique@);
    let ghost mut cs: Seq<int> = Seq::empty();
    let mut r: Vec<String> = Vec::new();
    let mut k: usize = 0;
    while k < chunks.len()
        invariant
            k <= chunks@.len(),
            u == string_views(unique@),
            u == unique_ids(string_views(ids@)),
            u.len() <= ids@.len(),
            r@.len() == k,
            forall|q: int| 0 <= q < r@.len() ==> #[trigger] r@[q]@ == json_text_list(batch_of(u, q)),
            cs.len() == r@.len(),
            chunks@.len() * 50 >= u.len(),
            chunks@.len() == 0 || (chunks@.len() - 1) * 50 + chunks@.last()@.len() == u.len(),
            forall|q: int| 0 <= q < chunks@.len() ==> 0 < (#[trigger] chunks@[q])@.len() <= BATCH_SIZE,
            forall|q: int| 0 <= q && q + 1 < chunks@.len() ==> (#[trigger] chunks@[q])@.len() == BATCH_SIZE,
            forall|q: int|
                0 <= q < chunks@.len() ==> string_views((#[trigger] chunks@[q])@) == u.subrange(q * 50, q * 50 + chunks@[q]@.len()),
            forall|q: int|
                0 <= q < r@.len() ==> 0 <= #[trigger] cs[q] && cs[q] * 50 < u.len() && r@[q]@ == json_text_list(batch_of(u, cs[q])),
        decreases chunks@.len() - k,
    {
        if let Some(t) = json_list(&chunks[k]) {
            proof {
                let c = k as int;
                let len = chunks@[c]@.len();
                assert(c * 50 < u.len());
                if c + 1 < chunks@.len() {
                    assert(len == 50);
                    assert((c + 1) * 50 < u.len()) by {
                        assert(chunks@[c + 1]@.len() > 0);
                        if c + 1 < chunks@.len() - 1 {
                        }
                    }
                } else {
                    assert(c * 50 + len == u.len());
                }
                assert(string_views(chunks@[c]@) =~= batch_of(u, c));
                assert(t@ == json_text_list(batch_of(u, c)));
            }
            let ghost before = r@;
            r.push(t);
            proof {
                cs = cs.push(k as int);
                assert forall|q: int| 0 <= q < r@.len() implies 0 <= #[trigger] cs[q] && cs[q] * 50 < u.len() && r@[q]@
                    == json_text_list(batch_of(u, cs[q])) by {
                    if q < before.len() {
                        assert(r@[q] == before[q]);
                    }
                }
                assert forall|q: int| 0 <= q < r@.len() implies #[trigger] r@[q]@ == json_text_list(batch_of(u, q)) by {
                    if q < before.len() {
                        assert(r@[q] == before[q]);
                    }
                }
            }
        }
        k = k + 1;
    }
    proof {
        assert forall|k: int| 0 <= k < r@.len() implies is_batch_param(unique_ids(string_views(ids@)), #[trigger] r@[k]@) by {
            let c = cs[k];
            assert(0 <= cs[k]);
            assert(batch_of(u, c) == batch_of(unique_ids(string_views(ids@)), c));
        }
        assert(chunks@.len() <= ids@.len()) by {
            if chunks@.len() > 0 {
                assert(chunks@.last()@.len() > 0);
            }
        }
        if chunks@.len() > 0 {
            assert(chunks@.last()@.len() > 0);
        }
    }
    r
}

proof fn lemma_unique_ids_len(ids: Seq<Seq<char>>)
    ensures
        unique_ids(ids).len() <= ids.len(),
    decreases ids.len(),
{
    if ids.len() > 0 {
        lemma_unique_ids_len(ids.drop_last());
    }
}

// ---------------------------------------------------------------------------
// CurseForge batch requests
// ---------------------------------------------------------------------------

/// Which CurseForge batch a request asks for.
pub enum CurseforgeBatch {
    Mods,
    Files,
}

pub open spec fn batch_field(kind: CurseforgeBatch) -> Seq<char> {
    match kind {
        CurseforgeBatch::Mods => "modIds"@,
        CurseforgeBatch::Files => "fileIds"@,
    }
}

/// The ids in decimal, separated by commas.
pub open spec fn id_list_text(ids: Seq<i64>) -> Seq<char>
    decreases ids.len(),
{
    if ids.len() == 0 {
        Seq::empty()
    } else if ids.len() == 1 {
        i64_text(ids[0])
    } else {
        id_list_text(ids.drop_last()) + ","@ + i64_text(ids.last())
    }
}

/// The JSON body of a batch request, as serde_json writes it:
/// `{"modIds":[1,2]}` or `{"fileIds":[…]}`.
pub open spec fn batch_body(kind: CurseforgeBatch, ids: Seq<i64>) -> Seq<char> {
    "{\""@ + batch_field(kind) + "\":["@ + id_list_text(ids) + "]}"@
}

pub fn curseforge_batch_body(kind: &CurseforgeBatch, ids: &[i64]) -> (r: String)
    ensures
        r@ == batch_body(*kind, ids@),
{
    let mut list = String::new();
    let mut i: usize = 0;
    while i < ids.len()
        invariant
            i <= ids@.len(),
            list@ == id_list_text(ids@.take(i as int)),
        decreases ids@.len() - i,
    {
        assert(ids@.take(i + 1).drop_last() =~= ids@.take(i as int));
        if i > 0 {
            list.append(",");
        }
        list.append(i64_string(ids[i]).as_str());
        proof {
            reveal_strlit(",");
            if i == 0 {
                assert(ids@.take(1)[0] == ids@[0]);
                assert(list@ =~= i64_text(ids@[0]));
            } else {
                assert(list@ =~= id_list_text(ids@.take(i as int)) + ","@ + i64_text(ids@[i as int]));
            }
        }
        i = i + 1;
    }
    assert(ids@.take(ids@.len() as int) =~= ids@);
    let mut body = match kind {
        CurseforgeBatch::Mods => "{\"modIds\":[".to_string(),
        CurseforgeBatch::Files => "{\"fileIds\":[".to_string(),
    };
    body.append(list.as_str());
    body.append("]}");
    proof {
        reveal_strlit("{\"modIds\":[");
        reveal_strlit("{\"fileIds\":[");
        reveal_strlit("{\"");
        reveal_strlit("modIds");
        reveal_strlit("fileIds");
        reveal_strlit("\":[");
        reveal_strlit("]}");
        assert("{\""@ + "modIds"@ + "\":["@ =~= "{\"modIds\":["@);
        assert("{\""@ + "fileIds"@ + "\":["@ =~= "{\"fileIds\":["@);
    }
    body
}

/// Entries by the view of their key.
pub open spec fn keyed_views<T>(e: Seq<(String, T)>) -> Seq<(Seq<char>, T)> {
    e.map_values(|p: (String, T)| (p.0@, p.1))
}

/// The position of the first entry under `key`.
pub open spec fn view_index<T>(e: Seq<(Seq<char>, T)>, key: Seq<char>) -> Option<int>
    decreases e.len(),
{
    if e.len() == 0 {
        None
    } else {
        match view_index(e.drop_last(), key) {
            Some(i) => Some(i),
            None => if e.last().0 == key {
                Some(e.len() - 1)
            } else {
                None
            },
        }
    }
}

/// `e` with `v` stored under `key`: in place of the entry there, or added.
pub open spec fn put_view<T>(e: Seq<(Seq<char>, T)>, key: Seq<char>, v: T) -> Seq<(Seq<char>, T)> {
    match view_index(e, key) {
        Some(i) => e.update(i, (key, v)),
        None => e.push((key, v)),
    }
}

/// The items a batch answered, by id in decimal: a later item with an id
/// already seen replaces the earlier one, an item without an id is left out.
pub open spec fn batch_items<T>(items: Seq<(Option<i64>, T)>) -> Seq<(Seq<char>, T)>
    decreases items.len(),
{
    if items.len() == 0 {
        Seq::empty()
    } else {
        let prev = batch_items(items.drop_last());
        match items.last().0 {
            Some(id) => put_view(prev, i64_text(id), items.last().1),
            None => prev,
        }
    }
}

proof fn lemma_key_index_views<T>(e: Seq<(String, T)>, key: Seq<char>)
    ensures
        crate::caches::key_index(e, key) == view_index(keyed_views(e), key),
        crate::caches::key_index(e, key) matches Some(i) ==> 0 <= i < e.len(),
    decreases e.len(),
{
    if e.len() > 0 {
        assert(keyed_views(e).drop_last() =~= keyed_views(e.drop_last()));
        lemma_key_index_views(e.drop_last(), key);
    }
}

/// Collects the items of one or more batch answers by id (see
/// `batch_items`), in the order their ids first came.
pub fn batch_results<T>(items: Vec<(Option<i64>, T)>) -> (r: Vec<(String, T)>)
    ensures
        keyed_views(r@) == batch_items(items@),
{
    let ghost all = items@;
    let mut rest = items;
    let mut r: Vec<(String, T)> = Vec::new();
    let mut i: usize = 0;
    assert(all.len() == rest.len());
    while rest.len() > 0
        invariant
            all.len() <= usize::MAX,
            i + rest@.len() == all.len(),
            rest@ == all.subrange(i as int, all.len() as int),
            keyed_views(r@) == batch_items(all.take(i as int)),
        decreases rest@.len(),
    {
        let (id, item) = rest.remove(0);
        assert(all.take(i + 1).drop_last() =~= all.take(i as int));
        assert(all.take(i + 1).last() == all[i as int]);
        match id {
            Some(n) => {
                let key = i64_string(n);
                let ghost before = r@;
                proof {
                    lemma_key_index_views(before, key@);
                }
                crate::caches::put_entry(&mut r, key, item);
                proof {
                    match crate::caches::key_index(before, key@) {
                        Some(j) => {
                            assert(keyed_views(r@) =~= keyed_views(before).update(j, (key@, item)));
                        },
                        None => {
                            assert(keyed_views(r@) =~= keyed_views(before).push((key@, item)));
                        },
                    }
                }
            },
            None => {},
        }
        i = i + 1;
        assert(rest@ =~= all.subrange(i as int, all.len() as int));
    }
    assert(all.take(all.len() as int) =~= all);
    r
}

} // verus!
