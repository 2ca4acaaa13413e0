//! Matching jar names against projects found on Modrinth or CurseForge.
use vstd::prelude::*;
use crate::text::{byte_len, byte_len_at_most, chars_of, contains, contains_chars, eq_chars, eq_str, join, join_strings, lower, opt_view, slice_chars, split_by, split_chars, starts_with, starts_with_chars, string_views, to_lower, trim, trim_string, trimmed, views};
use crate::mod_names::{alnum_key, camel_spaced, decorations_stripped, display_name, hyphen_spaced, hyphenated_to_spaced, mod_name_tokens, name_tokens, normalized_match_key, qualifiers_stripped, slug, slug_key, spaced_camel_case, strip_filename_decorations, strip_qualifiers, strip_version_suffixes, version_or_loader, version_or_loader_chars, version_suffixes_stripped};

verus! {

/// A project offered by a provider for a local jar.
pub struct ProviderCandidate {
    pub id: String,
    pub slug: Option<String>,
    pub title: String,
    pub summary: Option<String>,
    pub icon_url: Option<String>,
    pub exact_file_match: bool,
    pub match_score: u32,
}

/// A provider project as seen by the matching rules.
pub struct ProviderProject {
    pub id: String,
    pub slug: Option<String>,
    pub title: Option<String>,
    pub project_type: Option<String>,
}

// ---------------------------------------------------------------------------
// Search queries
// ---------------------------------------------------------------------------

/// `candidate` trimmed and appended, unless blank or already present.
pub open spec fn push_unique_text(queries: Seq<Seq<char>>, candidate: Seq<char>) -> Seq<Seq<char>> {
    let t = trim(candidate);
    if t.len() == 0 || queries.contains(t) {
        queries
    } else {
        queries.push(t)
    }
}

pub fn push_unique_query(queries: &mut Vec<String>, candidate: &str)
    ensures
        string_views(final(queries)@) == push_unique_text(string_views(old(queries)@), candidate@),
{
    let t = trim_string(candidate);
    if t.as_str().is_empty() {
        return;
    }
    let mut i: usize = 0;
    while i < queries.len()
        invariant
            i <= queries@.len(),
            queries@ == old(queries)@,
            t@ == trim(candidate@),
            t@.len() > 0,
            forall|k: int| 0 <= k < i ==> string_views(queries@)[k] != t@,
        decreases queries@.len() - i,
    {
        if queries[i] == t {
            assert(string_views(queries@)[i as int] == t@);
            return;
        }
        i = i + 1;
    }
    let ghost before = queries@;
    queries.push(t);
    assert(string_views(queries@) =~= string_views(before).push(t@));
}

/// Suffixes a catalog title may add to a jar's name and still be the same mod.
pub open spec fn ok_extra_suffix(extra: Seq<char>) -> bool {
    extra == "edition"@ || extra == "jeiedition"@ || extra == "lite"@ || extra == "plus"@ || extra
        == "extra"@ || extra == "fix"@ || extra == "api"@ || extra == "lib"@
}

/// Whether two normalised keys of at least eight bytes name the same mod: equal,
/// the jar key starting with the catalog key, or the catalog key extending the
/// jar key by one of the known suffixes.
pub open spec fn prefix_match(jar: Seq<char>, catalog: Seq<char>) -> bool {
    if byte_len(jar) < 8 || byte_len(catalog) < 8 {
        false
    } else if jar == catalog {
        true
    } else if starts_with(jar, catalog) {
        true
    } else if !starts_with(catalog, jar) {
        false
    } else {
        let extra = catalog.subrange(jar.len() as int, catalog.len() as int);
        if extra.len() == 0 {
            true
        } else if byte_len(extra) <= 12 {
            ok_extra_suffix(extra)
        } else {
            false
        }
    }
}

pub fn normalized_prefix_match(jar_key: &str, catalog_key: &str) -> (r: bool)
    ensures
        r == prefix_match(jar_key@, catalog_key@),
{
    let jar = chars_of(jar_key);
    let cat = chars_of(catalog_key);
    if byte_len_at_most(&jar, 7) || byte_len_at_most(&cat, 7) {
        return false;
    }
    if eq_chars(&jar, &cat) {
        return true;
    }
    if starts_with_chars(&jar, &cat) {
        return true;
    }
    if !starts_with_chars(&cat, &jar) {
        return false;
    }
    let extra = slice_chars(&cat, jar.len(), cat.len());
    if extra.len() == 0 {
        return true;
    }
    if byte_len_at_most(&extra, 12) {
        return eq_str(&extra, "edition") || eq_str(&extra, "jeiedition") || eq_str(&extra, "lite")
            || eq_str(&extra, "plus") || eq_str(&extra, "extra") || eq_str(&extra, "fix")
            || eq_str(&extra, "api") || eq_str(&extra, "lib");
    }
    false
}

/// The search texts tried for a jar, most specific first: its name words
/// joined by spaces and by underscores, the spaced hyphenated name, the
/// camel-case split name, the name without version, without qualifiers, and the
/// bare trimmed name, blanks and repeats left out.
pub open spec fn search_queries(display_name: Seq<char>) -> Seq<Seq<char>> {
    let trimmed = decorations_stripped(display_name);
    let clean = qualifiers_stripped(trimmed);
    let tokens = name_tokens(display_name);
    let stripped = version_suffixes_stripped(trimmed);
    let spaced = join(tokens, " "@);
    let underscored = join(tokens, "_"@);
    let hyphen = if spaced.len() == 0 {
        hyphen_spaced(stripped)
    } else {
        spaced
    };
    let camel = camel_spaced(stripped);
    let q0 = Seq::<Seq<char>>::empty();
    let q1 = push_unique_text(q0, spaced);
    let q2 = push_unique_text(q1, underscored);
    let q3 = push_unique_text(q2, hyphen);
    let q4 = push_unique_text(q3, camel);
    let q5 = push_unique_text(q4, stripped);
    let q6 = push_unique_text(q5, clean);
    push_unique_text(q6, trimmed)
}

pub fn search_queries_from_display_name(display_name: &str) -> (r: Vec<String>)
    ensures
        string_views(r@) == search_queries(display_name@),
{
    let trimmed = strip_filename_decorations(display_name);
    let clean = strip_qualifiers(trimmed.as_str());
    let tokens = mod_name_tokens(display_name);
    let stripped = strip_version_suffixes(trimmed.as_str());
    let spaced = join_strings(&tokens, " ");
    let underscored = join_strings(&tokens, "_");
    let hyphen = if spaced.as_str().is_empty() {
        hyphenated_to_spaced(stripped.as_str())
    } else {
        spaced.clone()
    };
    let camel = spaced_camel_case(stripped.as_str());
    let mut queries: Vec<String> = Vec::new();
    assert(string_views(queries@) =~= Seq::<Seq<char>>::empty());
    push_unique_query(&mut queries, spaced.as_str());
    push_unique_query(&mut queries, underscored.as_str());
    push_unique_query(&mut queries, hyphen.as_str());
    push_unique_query(&mut queries, camel.as_str());
    push_unique_query(&mut queries, stripped.as_str());
    push_unique_query(&mut queries, clean.as_str());
    push_unique_query(&mut queries, trimmed.as_str());
    queries
}

/// Only the first search text is sent to a provider's API.
pub open spec fn api_queries(display_name: Seq<char>) -> Seq<Seq<char>> {
    let all = search_queries(display_name);
    if all.len() == 0 {
        all
    } else {
        all.take(1)
    }
}

pub fn search_queries_for_api(display_name: &str) -> (r: Vec<String>)
    ensures
        string_views(r@) == api_queries(display_name@),
{
    let mut all = search_queries_from_display_name(display_name);
    let ghost full = string_views(all@);
    all.truncate(1);
    assert(full.len() == 0 ==> string_views(all@) =~= full);
    assert(full.len() > 0 ==> string_views(all@) =~= full.take(1));
    all
}

// ---------------------------------------------------------------------------
// Matching a project
// ---------------------------------------------------------------------------

/// `key` appended unless empty or already present.
pub open spec fn add_key(keys: Seq<Seq<char>>, key: Seq<char>) -> Seq<Seq<char>> {
    if key.len() == 0 || keys.contains(key) {
        keys
    } else {
        keys.push(key)
    }
}

/// Normalised keys of the decorated-free name, its qualifier-free form and its
/// version-free form, then of the version-free stem.
pub open spec fn name_keys(display_name: Seq<char>) -> Seq<Seq<char>> {
    let trimmed = decorations_stripped(display_name);
    let clean = qualifiers_stripped(trimmed);
    let stripped = version_suffixes_stripped(trimmed);
    let k1 = add_key(Seq::<Seq<char>>::empty(), alnum_key(trimmed));
    let k2 = add_key(k1, alnum_key(clean));
    let k3 = add_key(k2, alnum_key(stripped));
    add_key(k3, alnum_key(stripped))
}

/// Slug keys of the same three forms of the name.
pub open spec fn slug_keys(display_name: Seq<char>) -> Seq<Seq<char>> {
    let trimmed = decorations_stripped(display_name);
    let clean = qualifiers_stripped(trimmed);
    let stripped = version_suffixes_stripped(trimmed);
    let k1 = add_key(Seq::<Seq<char>>::empty(), slug(trimmed));
    let k2 = add_key(k1, slug(clean));
    add_key(k2, slug(stripped))
}

fn add_key_exec(keys: &mut Vec<String>, key: String)
    ensures
        string_views(final(keys)@) == add_key(string_views(old(keys)@), key@),
{
    if key.as_str().is_empty() {
        return;
    }
    let mut i: usize = 0;
    while i < keys.len()
        invariant
            i <= keys@.len(),
            keys@ == old(keys)@,
            forall|k: int| 0 <= k < i ==> string_views(keys@)[k] != key@,
        decreases keys@.len() - i,
    {
        if keys[i] == key {
            assert(string_views(keys@)[i as int] == key@);
            return;
        }
        i = i + 1;
    }
    let ghost before = keys@;
    let ghost kv = key@;
    keys.push(key);
    assert(string_views(keys@) =~= string_views(before).push(kv));
}

pub fn match_keys_for_display_name(display_name: &str) -> (r: (Vec<String>, Vec<String>))
    ensures
        string_views(r.0@) == name_keys(display_name@),
        string_views(r.1@) == slug_keys(display_name@),
{
    let trimmed = strip_filename_decorations(display_name);
    let clean = strip_qualifiers(trimmed.as_str());
    let stripped = strip_version_suffixes(trimmed.as_str());
    let mut names: Vec<String> = Vec::new();
    let mut slugs: Vec<String> = Vec::new();
    assert(string_views(names@) =~= Seq::<Seq<char>>::empty());
    assert(string_views(slugs@) =~= Seq::<Seq<char>>::empty());
    add_key_exec(&mut names, normalized_match_key(trimmed.as_str()));
    add_key_exec(&mut slugs, slug_key(trimmed.as_str()));
    add_key_exec(&mut names, normalized_match_key(clean.as_str()));
    add_key_exec(&mut slugs, slug_key(clean.as_str()));
    add_key_exec(&mut names, normalized_match_key(stripped.as_str()));
    add_key_exec(&mut slugs, slug_key(stripped.as_str()));
    add_key_exec(&mut names, normalized_match_key(stripped.as_str()));
    (names, slugs)
}

/// Whether a provider project is the mod a jar name refers to: its normalised
/// title or slug equals one of the name's keys or prefix-matches the jar's
/// stem, or its slug equals one of the name's slug keys.
pub open spec fn project_matches(title: Option<Seq<char>>, slug_text: Option<Seq<char>>, display_name: Seq<char>) -> bool {
    let names = name_keys(display_name);
    let slugs = slug_keys(display_name);
    let jar_stem = alnum_key(version_suffixes_stripped(decorations_stripped(display_name)));
    let title_ok = match title {
        Some(t) => {
            let tk = alnum_key(t);
            (tk.len() > 0 && names.contains(tk)) || prefix_match(jar_stem, tk)
        },
        None => false,
    };
    let slug_ok = match slug_text {
        Some(s) => {
            let sn = alnum_key(s);
            let ss = slug(s);
            (sn.len() > 0 && names.contains(sn)) || prefix_match(jar_stem, sn) || (ss.len() > 0
                && slugs.contains(ss))
        },
        None => false,
    };
    title_ok || slug_ok
}

fn contains_string(list: &Vec<String>, s: &String) -> (r: bool)
    ensures
        r == string_views(list@).contains(s@),
{
    let mut i: usize = 0;
    while i < list.len()
        invariant
            i <= list@.len(),
            forall|k: int| 0 <= k < i ==> string_views(list@)[k] != s@,
        decreases list@.len() - i,
    {
        if list[i] == *s {
            assert(string_views(list@)[i as int] == s@);
            return true;
        }
        i = i + 1;
    }
    false
}

pub fn provider_project_matches(project: &ProviderProject, display_name: &str) -> (r: bool)
    ensures
        r == project_matches(opt_view(project.title), opt_view(project.slug), display_name@),
{
    let (names, slugs) = match_keys_for_display_name(display_name);
    let deco = strip_filename_decorations(display_name);
    let stripped = strip_version_suffixes(deco.as_str());
    let jar_stem = normalized_match_key(stripped.as_str());
    let mut title_ok = false;
    if let Some(title) = &project.title {
        let tk = normalized_match_key(title.as_str());
        title_ok = (!tk.as_str().is_empty() && contains_string(&names, &tk))
            || normalized_prefix_match(jar_stem.as_str(), tk.as_str());
    }
    let mut slug_ok = false;
    if let Some(sl) = &project.slug {
        let sn = normalized_match_key(sl.as_str());
        let ss = slug_key(sl.as_str());
        slug_ok = (!sn.as_str().is_empty() && contains_string(&names, &sn))
            || normalized_prefix_match(jar_stem.as_str(), sn.as_str()) || (
            !ss.as_str().is_empty() && contains_string(&slugs, &ss));
    }
    title_ok || slug_ok
}

/// A Modrinth project matches only when it is a mod (not a resource pack,
/// shader or modpack) and the name matches.
pub open spec fn modrinth_matches(project_type: Option<Seq<char>>, title: Option<Seq<char>>, slug_text: Option<Seq<char>>, display_name: Seq<char>) -> bool {
    project_type == Some("mod"@) && project_matches(title, slug_text, display_name)
}

pub fn modrinth_project_matches(project: &ProviderProject, display_name: &str) -> (r: bool)
    ensures
        r == modrinth_matches(
            opt_view(project.project_type),
            opt_view(project.title),
            opt_view(project.slug),
            display_name@,
        ),
{
    let is_mod = match &project.project_type {
        Some(kind) => {
            let kv = chars_of(kind.as_str());
            eq_str(&kv, "mod")
        },
        None => false,
    };
    is_mod && provider_project_matches(project, display_name)
}

// ---------------------------------------------------------------------------
// Ranking candidates
// ---------------------------------------------------------------------------

/// The pieces of a name that are at least two bytes long and are not version
/// or loader pieces.
pub open spec fn score_tokens(parts: Seq<Seq<char>>) -> Seq<Seq<char>>
    decreases parts.len(),
{
    if parts.len() == 0 {
        parts
    } else if byte_len(parts.last()) >= 2 && !version_or_loader(parts.last()) {
        score_tokens(parts.drop_last()).push(parts.last())
    } else {
        score_tokens(parts.drop_last())
    }
}

/// How many tokens occur, lower-cased, in the haystack.
pub open spec fn matched_count(tokens: Seq<Seq<char>>, hay: Seq<char>) -> nat
    decreases tokens.len(),
{
    if tokens.len() == 0 {
        0
    } else {
        matched_count(tokens.drop_last(), hay) + (if contains(hay, lower(tokens.last())) {
            1nat
        } else {
            0nat
        })
    }
}

pub open spec fn or_empty(o: Option<Seq<char>>) -> Seq<char> {
    match o {
        Some(s) => s,
        None => Seq::<char>::empty(),
    }
}

/// Relevance of a candidate for a jar name: 1000 for a name match; otherwise
/// 50 for each word of the version-free name found in the candidate's title
/// and slug (the product wraps around as `u32` multiplication does).
pub open spec fn candidate_score(display_name: Seq<char>, title: Seq<char>, slug_text: Option<Seq<char>>) -> u32 {
    if modrinth_matches(Some("mod"@), Some(title), slug_text, display_name) {
        1000
    } else if project_matches(Some(title), slug_text, display_name) {
        800
    } else {
        let stem = version_suffixes_stripped(decorations_stripped(display_name));
        let tokens = score_tokens(split_by(stem, seq!['-', '_', ' ']));
        if tokens.len() == 0 {
            0
        } else {
            let hay = lower(title + " "@ + or_empty(slug_text));
            vstd::wrapping::u32_specs::wrapping_mul(matched_count(tokens, hay) as u32, 50)
        }
    }
}

pub open spec fn score_of(display_name: Seq<char>, c: ProviderCandidate) -> u32 {
    candidate_score(display_name, c.title@, opt_view(c.slug))
}

fn clone_opt(o: &Option<String>) -> (r: Option<String>)
    ensures
        opt_view(r) == opt_view(*o),
{
    match o {
        Some(s) => Some(s.clone()),
        None => None,
    }
}

pub fn candidate_match_score(display_name: &str, candidate: &ProviderCandidate) -> (r: u32)
    ensures
        r == score_of(display_name@, *candidate),
{
    let project = ProviderProject {
        id: candidate.id.clone(),
        slug: clone_opt(&candidate.slug),
        title: Some(candidate.title.clone()),
        project_type: Some("mod".to_string()),
    };
    if modrinth_project_matches(&project, display_name) {
        return 1000;
    }
    if provider_project_matches(&project, display_name) {
        return 800;
    }
    let deco = strip_filename_decorations(display_name);
    let stem = strip_version_suffixes(deco.as_str());
    let sv = chars_of(stem.as_str());
    let seps = vec!['-', '_', ' '];
    assert(seps@ =~= seq!['-', '_', ' ']);
    let parts = split_chars(&sv, &seps);
    let mut tokens: Vec<Vec<char>> = Vec::new();
    let mut i: usize = 0;
    while i < parts.len()
        invariant
            i <= parts@.len(),
            views(tokens@) == score_tokens(views(parts@).take(i as int)),
        decreases parts@.len() - i,
    {
        let ghost pv = views(parts@);
        assert(pv.take(i + 1).drop_last() =~= pv.take(i as int));
        assert(pv.take(i + 1).last() == parts@[i as int]@);
        if !byte_len_at_most(&parts[i], 1) && !version_or_loader_chars(&parts[i]) {
            let ghost before = tokens@;
            tokens.push(parts[i].clone());
            assert(views(tokens@) =~= views(before).push(parts@[i as int]@));
        }
        i = i + 1;
    }
    assert(views(parts@).take(parts@.len() as int) =~= views(parts@));
    if tokens.len() == 0 {
        return 0;
    }
    let mut hay_s = candidate.title.clone();
    hay_s.append(" ");
    match &candidate.slug {
        Some(sl) => hay_s.append(sl.as_str()),
        None => {},
    }
    proof {
        assert(hay_s@ =~= candidate.title@ + " "@ + or_empty(opt_view(candidate.slug)));
    }
    let hv = chars_of(hay_s.as_str());
    let hay = to_lower(&hv);
    let mut matched: usize = 0;
    let mut j: usize = 0;
    while j < tokens.len()
        invariant
            j <= tokens@.len(),
            matched == matched_count(views(tokens@).take(j as int), hay@),
            matched <= j,
        decreases tokens@.len() - j,
    {
        let ghost tv = views(tokens@);
        assert(tv.take(j + 1).drop_last() =~= tv.take(j as int));
        assert(tv.take(j + 1).last() == tokens@[j as int]@);
        let low = to_lower(&tokens[j]);
        if contains_chars(&hay, &low) {
            matched = matched + 1;
        }
        j = j + 1;
    }
    assert(views(tokens@).take(tokens@.len() as int) =~= views(tokens@));
    (matched as u32).wrapping_mul(50)
}

/// A candidate with its relevance filled in.
pub open spec fn with_score(c: ProviderCandidate, score: u32) -> ProviderCandidate {
    ProviderCandidate {
        id: c.id,
        slug: c.slug,
        title: c.title,
        summary: c.summary,
        icon_url: c.icon_url,
        exact_file_match: c.exact_file_match,
        match_score: score,
    }
}

pub open spec fn scored(display_name: Seq<char>, cs: Seq<ProviderCandidate>) -> Seq<ProviderCandidate> {
    cs.map_values(|c: ProviderCandidate| with_score(c, score_of(display_name, c)))
}

pub open spec fn sorted_by_score(cs: Seq<ProviderCandidate>) -> bool {
    forall|i: int, j: int| 0 <= i < j < cs.len() ==> cs[i].match_score >= cs[j].match_score
}

/// Scores every candidate for the jar name and orders them by relevance, best
/// first; candidates with equal scores keep their order.
pub fn sort_candidates_by_relevance(display_name: &str, candidates: &mut Vec<ProviderCandidate>)
    ensures
        sorted_by_score(final(candidates)@),
        final(candidates)@.to_multiset() == scored(display_name@, old(candidates)@).to_multiset(),
{
    broadcast use vstd::seq_lib::group_to_multiset_ensures;

    let ghost all = scored(display_name@, old(candidates)@);
    let n = candidates.len();
    let mut out: Vec<ProviderCandidate> = Vec::new();
    let mut done: usize = 0;
    assert(all.take(0) =~= Seq::<ProviderCandidate>::empty());
    while candidates.len() > 0
        invariant
            done + candidates@.len() == n,
            n == old(candidates)@.len(),
            candidates@ == old(candidates)@.subrange(done as int, n as int),
            all == scored(display_name@, old(candidates)@),
            all.len() == n,
            out@.to_multiset() == all.take(done as int).to_multiset(),
            sorted_by_score(out@),
        decreases candidates@.len(),
    {
        let mut x = candidates.remove(0);
        let score = candidate_match_score(display_name, &x);
        x.match_score = score;
        let mut pos: usize = 0;
        while pos < out.len() && out[pos].match_score >= x.match_score
            invariant
                pos <= out@.len(),
                forall|k: int| 0 <= k < pos ==> out@[k].match_score >= x.match_score,
            decreases out@.len() - pos,
        {
            pos = pos + 1;
        }
        let ghost before = out@;
        proof {
            assert(x == all[done as int]);
            assert(all.take(done + 1) =~= all.take(done as int).push(x));
        }
        out.insert(pos, x);
        proof {
            assert(out@ == before.insert(pos as int, x));
            vstd::seq_lib::to_multiset_insert(before, pos as int, x);
            vstd::seq_lib::to_multiset_build(all.take(done as int), x);
            assert forall|i: int, j: int| 0 <= i < j < out@.len() implies out@[i].match_score
                >= out@[j].match_score by {
                if pos < before.len() {
                    assert(before[pos as int].match_score < x.match_score);
                }
            }
        }
        done = done + 1;
        assert(candidates@ =~= old(candidates)@.subrange(done as int, n as int));
    }
    assert(all.take(n as int) =~= all);
    *candidates = out;
}

} // verus!
