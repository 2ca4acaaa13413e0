//! Names and versions read out of mod jar file names.
//!
//! A jar is called something like `C-XaeroZoomout-NeoForge-1.21-2.0.0.jar`:
//! an optional side prefix, the mod's name, then loader, Minecraft version and
//! the mod's own version. These functions take such a name apart.
use vstd::prelude::*;
use crate::text::{any_alpha, any_alpha_chars, any_digit, any_digit_chars, any_upper, any_upper_chars, append_chars, byte_len, byte_len_at_most, char_is_alnum, char_is_digit, char_is_lower, char_is_upper, char_is_ws, char_lower, char_upper, chars_of, contains, contains_str, count_digits, count_digits_chars, eq_str, has_char, is_alnum, is_digit, is_lower, is_upper, is_ws, join, join_strings, join_vecs, lower, lower_char, nonempty, nonempty_vecs, slice_chars, split_by, split_chars, split_whitespace, split_whitespace_chars, starts_with, starts_with_str, string_of, string_views, strings_of, strip_prefix, strip_prefix_chars, to_lower, trim, trim_char, trim_char_chars, trim_chars, trim_end_str, trim_end_str_chars, trim_string, trimmed, upper_char, views};

verus! {

// ---------------------------------------------------------------------------
// Decorations and qualifiers
// ---------------------------------------------------------------------------

/// Pictographs, dingbats, regional indicators, the zero-width joiner and the
/// emoji variation selector.
pub open spec fn emoji(c: char) -> bool {
    let n = c as u32;
    (0x1F300 <= n && n <= 0x1FAFF) || (0x2600 <= n && n <= 0x27BF) || (0x1F600 <= n && n
        <= 0x1F64F) || (0x1F900 <= n && n <= 0x1F9FF) || (0x1F1E6 <= n && n <= 0x1F1FF) || n
        == 0x200D || n == 0xFE0F
}

pub fn is_emoji_char(ch: char) -> (r: bool)
    ensures
        r == emoji(ch),
{
    let n = ch as u32;
    (0x1F300 <= n && n <= 0x1FAFF) || (0x2600 <= n && n <= 0x27BF) || (0x1F600 <= n && n
        <= 0x1F64F) || (0x1F900 <= n && n <= 0x1F9FF) || (0x1F1E6 <= n && n <= 0x1F1FF) || n
        == 0x200D || n == 0xFE0F
}

/// Characters that decorate the start of a file name.
pub open spec fn decoration(c: char) -> bool {
    is_ws(c) || c == '-' || c == '_' || c == '+' || c == '(' || c == '[' || c == ')' || c == ']'
        || emoji(c)
}

pub fn is_decoration(c: char) -> (r: bool)
    ensures
        r == decoration(c),
{
    char_is_ws(c) || c == '-' || c == '_' || c == '+' || c == '(' || c == '[' || c == ')' || c
        == ']' || is_emoji_char(c)
}

pub open spec fn drop_decorations(s: Seq<char>) -> Seq<char>
    decreases s.len(),
{
    if s.len() > 0 && decoration(s[0]) {
        drop_decorations(s.drop_first())
    } else {
        s
    }
}

/// The name with surrounding white space and leading decorations (emoji,
/// dashes, brackets...) removed.
pub open spec fn decorations_stripped(s: Seq<char>) -> Seq<char> {
    trim(drop_decorations(trim(s)))
}

pub fn strip_filename_decorations(value: &str) -> (r: String)
    ensures
        r@ == decorations_stripped(value@),
{
    let t = trimmed(value);
    let mut i: usize = 0;
    assert(t@.subrange(0, t@.len() as int) =~= t@);
    while i < t.len() && is_decoration(t[i])
        invariant
            i <= t@.len(),
            drop_decorations(t@) == drop_decorations(t@.subrange(i as int, t@.len() as int)),
        decreases t@.len() - i,
    {
        assert(t@.subrange(i as int, t@.len() as int).drop_first() =~= t@.subrange(i + 1, t@.len() as int));
        i = i + 1;
    }
    proof {
        if i < t@.len() {
            assert(!decoration(t@[i as int]));
        }
    }
    let rest = slice_chars(&t, i, t.len());
    let out = trim_chars(&rest);
    string_of(&out)
}

/// Scan state of `strip_qualifiers`: characters kept so far and bracket depth.
pub open spec fn qualifier_scan(s: Seq<char>) -> (Seq<char>, u32)
    decreases s.len(),
{
    if s.len() == 0 {
        (Seq::<char>::empty(), 0u32)
    } else {
        let (kept, depth) = qualifier_scan(s.drop_last());
        let c = s.last();
        if c == '(' || c == '[' {
            (kept, if depth == u32::MAX { depth } else { (depth + 1) as u32 })
        } else if c == ')' || c == ']' {
            (kept, if depth == 0 { 0u32 } else { (depth - 1) as u32 })
        } else if depth == 0 {
            (kept.push(c), depth)
        } else {
            (kept, depth)
        }
    }
}

/// Text inside round or square brackets removed (nesting counted), then trimmed.
pub open spec fn qualifiers_stripped(s: Seq<char>) -> Seq<char> {
    trim(qualifier_scan(s).0)
}

pub fn strip_qualifiers(value: &str) -> (r: String)
    ensures
        r@ == qualifiers_stripped(value@),
{
    let v = chars_of(value);
    let mut kept: Vec<char> = Vec::new();
    let mut depth: u32 = 0;
    let mut i: usize = 0;
    while i < v.len()
        invariant
            i <= v@.len(),
            (kept@, depth) == qualifier_scan(v@.take(i as int)),
        decreases v@.len() - i,
    {
        let c = v[i];
        assert(v@.take(i + 1).drop_last() =~= v@.take(i as int));
        if c == '(' || c == '[' {
            depth = depth.saturating_add(1);
        } else if c == ')' || c == ']' {
            depth = depth.saturating_sub(1);
        } else if depth == 0 {
            kept.push(c);
        }
        i = i + 1;
    }
    assert(v@.take(v@.len() as int) =~= v@);
    let out = trim_chars(&kept);
    string_of(&out)
}

// ---------------------------------------------------------------------------
// Match keys
// ---------------------------------------------------------------------------

/// Only the ASCII letters and digits, lower-cased.
pub open spec fn alnum_key(s: Seq<char>) -> Seq<char>
    decreases s.len(),
{
    if s.len() == 0 {
        s
    } else if is_alnum(s.last()) {
        alnum_key(s.drop_last()).push(lower_char(s.last()))
    } else {
        alnum_key(s.drop_last())
    }
}

pub fn normalized_match_key(value: &str) -> (r: String)
    ensures
        r@ == alnum_key(value@),
{
    let v = chars_of(value);
    let mut out: Vec<char> = Vec::new();
    let mut i: usize = 0;
    while i < v.len()
        invariant
            i <= v@.len(),
            out@ == alnum_key(v@.take(i as int)),
        decreases v@.len() - i,
    {
        assert(v@.take(i + 1).drop_last() =~= v@.take(i as int));
        if char_is_alnum(v[i]) {
            out.push(char_lower(v[i]));
        }
        i = i + 1;
    }
    assert(v@.take(v@.len() as int) =~= v@);
    string_of(&out)
}

/// Scan of `slug_key`: ASCII letters and digits lower-cased, every run of
/// other characters becomes one dash.
pub open spec fn slug_scan(s: Seq<char>) -> (Seq<char>, bool)
    decreases s.len(),
{
    if s.len() == 0 {
        (Seq::<char>::empty(), false)
    } else {
        let (out, dash) = slug_scan(s.drop_last());
        let c = lower_char(s.last());
        if is_alnum(c) {
            (out.push(c), false)
        } else if !dash {
            (out.push('-'), true)
        } else {
            (out, dash)
        }
    }
}

/// A dash-separated lower-case slug without dashes at the ends.
pub open spec fn slug(s: Seq<char>) -> Seq<char> {
    trim_char(slug_scan(s).0, '-')
}

pub fn slug_key(value: &str) -> (r: String)
    ensures
        r@ == slug(value@),
{
    let v = chars_of(value);
    let mut out: Vec<char> = Vec::new();
    let mut dash = false;
    let mut i: usize = 0;
    while i < v.len()
        invariant
            i <= v@.len(),
            (out@, dash) == slug_scan(v@.take(i as int)),
        decreases v@.len() - i,
    {
        assert(v@.take(i + 1).drop_last() =~= v@.take(i as int));
        let c = char_lower(v[i]);
        if char_is_alnum(c) {
            out.push(c);
            dash = false;
        } else if !dash {
            out.push('-');
            dash = true;
        }
        i = i + 1;
    }
    assert(v@.take(v@.len() as int) =~= v@);
    let t = trim_char_chars(&out, '-');
    string_of(&t)
}

// ---------------------------------------------------------------------------
// Version and loader segments
// ---------------------------------------------------------------------------

pub open spec fn loader_or_side_word(s: Seq<char>) -> bool {
    s == "neoforge"@ || s == "forge"@ || s == "fabric"@ || s == "quilt"@ || s == "client"@ || s
        == "server"@ || s == "universal"@ || s == "both"@
}

pub open spec fn release_word(s: Seq<char>) -> bool {
    contains(s, "hotfix"@) || contains(s, "hotfix2"@) || contains(s, "beta"@) || contains(
        s,
        "alpha"@,
    ) || contains(s, "rc"@) || contains(s, "pre"@) || contains(s, "release"@) || contains(
        s,
        "snapshot"@,
    ) || contains(s, "snap"@) || contains(s, "patch"@)
}

pub open spec fn digits_and_dots(s: Seq<char>) -> bool {
    forall|i: int| 0 <= i < s.len() ==> is_digit(#[trigger] s[i]) || s[i] == '.'
}

/// Characters a bare version such as `1.2.3b` or `0.7.51rc` is made of.
pub open spec fn version_char(c: char) -> bool {
    is_digit(c) || c == '.' || c == '-' || c == '+' || c == 'b' || c == 'a' || c == 'r' || c
        == 'c'
}

pub open spec fn all_version_chars(s: Seq<char>) -> bool {
    forall|i: int| 0 <= i < s.len() ==> version_char(#[trigger] s[i])
}

pub open spec fn numeric_char(c: char) -> bool {
    is_digit(c) || c == '.' || c == '-' || c == '+'
}

/// One `+`-separated piece of a build tag: blank, or digits with separators.
pub open spec fn plus_piece_ok(p: Seq<char>) -> bool {
    let t = trim(p);
    t.len() == 0 || (any_digit(t) && forall|i: int|
        0 <= i < t.len() ==> numeric_char(#[trigger] t[i]))
}

pub open spec fn plus_pieces_ok(parts: Seq<Seq<char>>) -> bool {
    forall|i: int| 0 <= i < parts.len() ==> plus_piece_ok(#[trigger] parts[i])
}

/// Whether a `-`/`_` separated piece of a file name is a version, a loader or
/// side word, a release qualifier, or a short code mixing letters and digits:
/// anything that is not part of the mod's own name.
pub open spec fn version_or_loader(segment: Seq<char>) -> bool {
    let s = lower(trim(segment));
    if s.len() == 0 {
        true
    } else if loader_or_side_word(s) {
        true
    } else if starts_with(s, "mc"@) && s.len() > 2 && digits_and_dots(s.subrange(2, s.len() as int)) {
        true
    } else if starts_with(s, "v"@) && s.len() > 1 && is_digit(s[1]) {
        true
    } else if release_word(s) {
        true
    } else if byte_len(s) <= 16 && any_digit(s) && any_alpha(s) && count_digits(s) <= 4 {
        true
    } else if !all_version_chars(s) {
        false
    } else {
        (any_digit(s) && s.contains('.')) || (s.contains('+') && plus_pieces_ok(
            split_by(s, seq!['+']),
        ))
    }
}

/// A piece that names a mod loader (neoforge, forge, fabric, quilt) or a
/// side (client, server, universal, both), in any case and with blanks
/// around it, is a version/loader piece: it never stays in a display name.
pub proof fn lemma_loader_and_side_words_are_segments(segment: Seq<char>)
    requires
        ({
            let s = lower(trim(segment));
            s == "neoforge"@ || s == "forge"@ || s == "fabric"@ || s == "quilt"@ || s == "client"@ || s
                == "server"@ || s == "universal"@ || s == "both"@
        }),
    ensures
        version_or_loader(segment),
{
    reveal_strlit("neoforge");
    reveal_strlit("forge");
    reveal_strlit("fabric");
    reveal_strlit("quilt");
    reveal_strlit("client");
    reveal_strlit("server");
    reveal_strlit("universal");
    reveal_strlit("both");
}

pub fn digits_and_dots_chars(v: &[char]) -> (r: bool)
    ensures
        r == digits_and_dots(v@),
{
    let mut i: usize = 0;
    while i < v.len()
        invariant
            i <= v@.len(),
            forall|k: int| 0 <= k < i ==> is_digit(#[trigger] v@[k]) || v@[k] == '.',
        decreases v@.len() - i,
    {
        if !(char_is_digit(v[i]) || v[i] == '.') {
            return false;
        }
        i = i + 1;
    }
    true
}

fn all_version_chars_exec(v: &[char]) -> (r: bool)
    ensures
        r == all_version_chars(v@),
{
    let mut i: usize = 0;
    while i < v.len()
        invariant
            i <= v@.len(),
            forall|k: int| 0 <= k < i ==> version_char(#[trigger] v@[k]),
        decreases v@.len() - i,
    {
        let c = v[i];
        if !(char_is_digit(c) || c == '.' || c == '-' || c == '+' || c == 'b' || c == 'a' || c
            == 'r' || c == 'c') {
            return false;
        }
        i = i + 1;
    }
    true
}

#[verifier::loop_isolation(false)]
fn plus_piece_ok_exec(p: &[char]) -> (r: bool)
    ensures
        r == plus_piece_ok(p@),
{
    let t = trim_chars(p);
    if t.len() == 0 {
        return true;
    }
    if !any_digit_chars(&t) {
        return false;
    }
    let mut i: usize = 0;
    while i < t.len()
        invariant
            i <= t@.len(),
            forall|k: int| 0 <= k < i ==> numeric_char(#[trigger] t@[k]),
        decreases t@.len() - i,
    {
        let c = t[i];
        if !(char_is_digit(c) || c == '.' || c == '-' || c == '+') {
            assert(!numeric_char(trim(p@)[i as int]));
            return false;
        }
        i = i + 1;
    }
    true
}

fn release_word_exec(s: &[char]) -> (r: bool)
    ensures
        r == release_word(s@),
{
    contains_str(s, "hotfix") || contains_str(s, "hotfix2") || contains_str(s, "beta")
        || contains_str(s, "alpha") || contains_str(s, "rc") || contains_str(s, "pre")
        || contains_str(s, "release") || contains_str(s, "snapshot") || contains_str(s, "snap")
        || contains_str(s, "patch")
}

fn loader_or_side_word_exec(s: &[char]) -> (r: bool)
    ensures
        r == loader_or_side_word(s@),
{
    eq_str(s, "neoforge") || eq_str(s, "forge") || eq_str(s, "fabric") || eq_str(s, "quilt")
        || eq_str(s, "client") || eq_str(s, "server") || eq_str(s, "universal") || eq_str(
        s,
        "both",
    )
}

#[verifier::loop_isolation(false)]
pub fn version_or_loader_chars(segment: &[char]) -> (r: bool)
    ensures
        r == version_or_loader(segment@),
{
    let t = trim_chars(segment);
    let s = to_lower(&t);
    if s.len() == 0 {
        return true;
    }
    if loader_or_side_word_exec(&s) {
        return true;
    }
    proof {
        reveal_strlit("mc");
        reveal_strlit("v");
    }
    if starts_with_str(&s, "mc") && s.len() > 2 {
        let rest = slice_chars(&s, 2, s.len());
        if digits_and_dots_chars(&rest) {
            return true;
        }
    }
    if starts_with_str(&s, "v") && s.len() > 1 && char_is_digit(s[1]) {
        return true;
    }
    if release_word_exec(&s) {
        return true;
    }
    if byte_len_at_most(&s, 16) && any_digit_chars(&s) && any_alpha_chars(&s)
        && count_digits_chars(&s) <= 4 {
        return true;
    }
    if !all_version_chars_exec(&s) {
        return false;
    }
    if any_digit_chars(&s) && has_char(&s, '.') {
        return true;
    }
    if !has_char(&s, '+') {
        return false;
    }
    let seps = vec!['+'];
    let parts = split_chars(&s, &seps);
    assert(seps@ =~= seq!['+']);
    let mut i: usize = 0;
    while i < parts.len()
        invariant
            i <= parts@.len(),
            views(parts@) == split_by(s@, seq!['+']),
            forall|k: int| 0 <= k < i ==> plus_piece_ok(#[trigger] views(parts@)[k]),
        decreases parts@.len() - i,
    {
        if !plus_piece_ok_exec(&parts[i]) {
            assert(!plus_piece_ok(views(parts@)[i as int]));
            assert(!plus_pieces_ok(split_by(s@, seq!['+'])));
            return false;
        }
        i = i + 1;
    }
    true
}

pub fn is_version_or_loader_segment(segment: &str) -> (r: bool)
    ensures
        r == version_or_loader(segment@),
{
    let v = chars_of(segment);
    version_or_loader_chars(&v)
}

pub open spec fn loader_word(s: Seq<char>) -> bool {
    s == "neoforge"@ || s == "forge"@ || s == "fabric"@ || s == "quilt"@
}

/// A piece that names a mod loader, in any case and with surrounding blanks.
pub open spec fn loader_segment(segment: Seq<char>) -> bool {
    loader_word(lower(trim(segment)))
}

fn loader_segment_chars(segment: &[char]) -> (r: bool)
    ensures
        r == loader_segment(segment@),
{
    let t = trim_chars(segment);
    let s = to_lower(&t);
    eq_str(&s, "neoforge") || eq_str(&s, "forge") || eq_str(&s, "fabric") || eq_str(&s, "quilt")
}

pub fn is_loader_segment(segment: &str) -> (r: bool)
    ensures
        r == loader_segment(segment@),
{
    let v = chars_of(segment);
    loader_segment_chars(&v)
}

/// The lower-cased piece without an `mc` prefix.
pub open spec fn without_mc(s: Seq<char>) -> Seq<char> {
    match strip_prefix(s, "mc"@) {
        Some(rest) => rest,
        None => s,
    }
}

/// A Minecraft version such as `1.21.1` or `mc1.21`.
pub open spec fn minecraft_version_segment(segment: Seq<char>) -> bool {
    let v = without_mc(lower(trim(segment)));
    starts_with(v, "1."@) && byte_len(v) <= 12 && digits_and_dots(v)
}

fn without_mc_chars(s: &[char]) -> (r: Vec<char>)
    ensures
        r@ == without_mc(s@),
{
    match strip_prefix_chars(s, "mc") {
        Some(rest) => rest,
        None => slice_chars(s, 0, s.len()),
    }
}

fn minecraft_version_segment_chars(segment: &[char]) -> (r: bool)
    ensures
        r == minecraft_version_segment(segment@),
{
    let t = trim_chars(segment);
    let l = to_lower(&t);
    let v = without_mc_chars(&l);
    assert(l@.subrange(0, l@.len() as int) =~= l@);
    starts_with_str(&v, "1.") && byte_len_at_most(&v, 12) && digits_and_dots_chars(&v)
}

pub fn is_minecraft_version_segment(segment: &str) -> (r: bool)
    ensures
        r == minecraft_version_segment(segment@),
{
    let v = chars_of(segment);
    minecraft_version_segment_chars(&v)
}

/// The pieces of a name between `-` and `_`.
pub open spec fn name_pieces(s: Seq<char>) -> Seq<Seq<char>> {
    split_by(s, seq!['-', '_'])
}

fn name_pieces_chars(v: &[char]) -> (r: Vec<Vec<char>>)
    ensures
        views(r@) == name_pieces(v@),
{
    let seps = vec!['-', '_'];
    assert(seps@ =~= seq!['-', '_']);
    split_chars(v, &seps)
}

/// The first loader piece, lower-cased and trimmed.
pub open spec fn first_loader(parts: Seq<Seq<char>>) -> Option<Seq<char>>
    decreases parts.len(),
{
    if parts.len() == 0 {
        None
    } else if loader_segment(parts[0]) {
        Some(lower(trim(parts[0])))
    } else {
        first_loader(parts.drop_first())
    }
}

/// The loader named by a jar file name, if any.
pub open spec fn loader_hint(filename: Seq<char>) -> Option<Seq<char>> {
    let lowered = lower(trim(filename));
    if contains(lowered, "fabric-loader"@) {
        Some("fabric"@)
    } else if contains(lowered, "quilt-loader"@) {
        Some("quilt"@)
    } else {
        first_loader(name_pieces(trim_end_str(filename, ".jar"@)))
    }
}

#[verifier::loop_isolation(false)]
pub fn loader_hint_from_filename(filename: &str) -> (r: Option<String>)
    ensures
        match r {
            Some(x) => loader_hint(filename@) == Some(x@),
            None => loader_hint(filename@) is None,
        },
{
    let v = chars_of(filename);
    let t = trim_chars(&v);
    let lowered = to_lower(&t);
    if contains_str(&lowered, "fabric-loader") {
        return Some("fabric".to_string());
    }
    if contains_str(&lowered, "quilt-loader") {
        return Some("quilt".to_string());
    }
    let stem = trim_end_str_chars(&v, ".jar");
    let parts = name_pieces_chars(&stem);
    let ghost pv = views(parts@);
    let mut i: usize = 0;
    assert(pv.subrange(0, pv.len() as int) =~= pv);
    while i < parts.len()
        invariant
            i <= parts@.len(),
            pv == views(parts@),
            first_loader(pv) == first_loader(pv.subrange(i as int, pv.len() as int)),
        decreases parts@.len() - i,
    {
        assert(pv.subrange(i as int, pv.len() as int)[0] == parts@[i as int]@);
        if loader_segment_chars(&parts[i]) {
            let tt = trim_chars(&parts[i]);
            let low = to_lower(&tt);
            return Some(string_of(&low));
        }
        assert(pv.subrange(i as int, pv.len() as int).drop_first() =~= pv.subrange(i + 1, pv.len() as int));
        i = i + 1;
    }
    None
}

/// The first Minecraft version piece, lower-cased, trimmed, without `mc`.
pub open spec fn first_minecraft_version(parts: Seq<Seq<char>>) -> Option<Seq<char>>
    decreases parts.len(),
{
    if parts.len() == 0 {
        None
    } else if minecraft_version_segment(parts[0]) {
        Some(without_mc(lower(trim(parts[0]))))
    } else {
        first_minecraft_version(parts.drop_first())
    }
}

pub open spec fn minecraft_version_hint(filename: Seq<char>) -> Option<Seq<char>> {
    first_minecraft_version(name_pieces(trim_end_str(filename, ".jar"@)))
}

#[verifier::loop_isolation(false)]
pub fn minecraft_version_hint_from_filename(filename: &str) -> (r: Option<String>)
    ensures
        match r {
            Some(x) => minecraft_version_hint(filename@) == Some(x@),
            None => minecraft_version_hint(filename@) is None,
        },
{
    let v = chars_of(filename);
    let stem = trim_end_str_chars(&v, ".jar");
    let parts = name_pieces_chars(&stem);
    let ghost pv = views(parts@);
    let mut i: usize = 0;
    assert(pv.subrange(0, pv.len() as int) =~= pv);
    while i < parts.len()
        invariant
            i <= parts@.len(),
            pv == views(parts@),
            first_minecraft_version(pv) == first_minecraft_version(pv.subrange(i as int, pv.len() as int)),
        decreases parts@.len() - i,
    {
        assert(pv.subrange(i as int, pv.len() as int)[0] == parts@[i as int]@);
        if minecraft_version_segment_chars(&parts[i]) {
            let tt = trim_chars(&parts[i]);
            let low = to_lower(&tt);
            let ver = without_mc_chars(&low);
            return Some(string_of(&ver));
        }
        assert(pv.subrange(i as int, pv.len() as int).drop_first() =~= pv.subrange(i + 1, pv.len() as int));
        i = i + 1;
    }
    None
}

// ---------------------------------------------------------------------------
// Name tokens
// ---------------------------------------------------------------------------

/// Trailing version/loader pieces dropped, keeping at least one piece.
pub open spec fn drop_version_tail(parts: Seq<Seq<char>>) -> Seq<Seq<char>>
    decreases parts.len(),
{
    if parts.len() > 1 && version_or_loader(parts.last()) {
        drop_version_tail(parts.drop_last())
    } else {
        parts
    }
}

/// The words of a mod's name: decorations and bracketed qualifiers removed,
/// split at `-` and `_`, trailing version and loader pieces dropped.
pub open spec fn name_tokens(s: Seq<char>) -> Seq<Seq<char>> {
    drop_version_tail(nonempty(name_pieces(qualifiers_stripped(decorations_stripped(s)))))
}

fn name_tokens_vecs(value: &str) -> (r: Vec<Vec<char>>)
    ensures
        views(r@) == name_tokens(value@),
{
    let deco = strip_filename_decorations(value);
    let clean = strip_qualifiers(deco.as_str());
    let cv = chars_of(clean.as_str());
    let pieces = name_pieces_chars(&cv);
    let mut parts = nonempty_vecs(&pieces);
    while parts.len() > 1 && version_or_loader_chars(&parts[parts.len() - 1])
        invariant
            drop_version_tail(views(parts@)) == name_tokens(value@),
        decreases parts@.len(),
    {
        let ghost before = parts@;
        parts.pop();
        assert(views(parts@) =~= views(before).drop_last());
    }
    parts
}

pub fn mod_name_tokens(value: &str) -> (r: Vec<String>)
    ensures
        string_views(r@) == name_tokens(value@),
{
    let parts = name_tokens_vecs(value);
    strings_of(&parts)
}

/// The name without version, loader and qualifier tails.
pub open spec fn version_suffixes_stripped(s: Seq<char>) -> Seq<char> {
    let tokens = name_tokens(s);
    if tokens.len() == 0 {
        qualifiers_stripped(decorations_stripped(s))
    } else if tokens.len() == 1 {
        tokens[0]
    } else {
        join(tokens, "-"@)
    }
}

pub fn strip_version_suffixes(value: &str) -> (r: String)
    ensures
        r@ == version_suffixes_stripped(value@),
{
    let tokens = mod_name_tokens(value);
    if tokens.len() == 0 {
        let deco = strip_filename_decorations(value);
        return strip_qualifiers(deco.as_str());
    }
    if tokens.len() == 1 {
        tokens[0].clone()
    } else {
        join_strings(&tokens, "-")
    }
}

/// Scan of `spaced_camel_case`: a space before each upper-case letter that
/// follows a lower-case one.
pub open spec fn camel_scan(s: Seq<char>) -> Seq<char>
    decreases s.len(),
{
    if s.len() == 0 {
        s
    } else {
        let n = s.len();
        let gap = if is_upper(s[n - 1]) && n > 1 && is_lower(s[n - 2]) {
            seq![' ']
        } else {
            Seq::<char>::empty()
        };
        camel_scan(s.drop_last()) + gap + seq![s[n - 1]]
    }
}

pub open spec fn camel_spaced(s: Seq<char>) -> Seq<char> {
    trim(camel_scan(s))
}

pub fn spaced_camel_case(value: &str) -> (r: String)
    ensures
        r@ == camel_spaced(value@),
{
    let v = chars_of(value);
    let mut out: Vec<char> = Vec::new();
    let mut i: usize = 0;
    while i < v.len()
        invariant
            i <= v@.len(),
            out@ == camel_scan(v@.take(i as int)),
        decreases v@.len() - i,
    {
        let ghost before = out@;
        let ghost t = v@.take(i + 1);
        assert(t.drop_last() =~= v@.take(i as int));
        if char_is_upper(v[i]) && i > 0 && char_is_lower(v[i - 1]) {
            out.push(' ');
        }
        out.push(v[i]);
        proof {
            if is_upper(t[i as int]) && i > 0 && is_lower(t[i - 1]) {
                assert(out@ =~= before + seq![' '] + seq![t[i as int]]);
            } else {
                assert(out@ =~= before + Seq::<char>::empty() + seq![t[i as int]]);
            }
        }
        i = i + 1;
    }
    assert(v@.take(v@.len() as int) =~= v@);
    let t = trim_chars(&out);
    string_of(&t)
}

/// The pieces that are neither empty nor version/loader pieces.
pub open spec fn name_words(parts: Seq<Seq<char>>) -> Seq<Seq<char>>
    decreases parts.len(),
{
    if parts.len() == 0 {
        parts
    } else if parts.last().len() > 0 && !version_or_loader(parts.last()) {
        name_words(parts.drop_last()).push(parts.last())
    } else {
        name_words(parts.drop_last())
    }
}

pub open spec fn hyphen_spaced(s: Seq<char>) -> Seq<char> {
    join(name_words(name_pieces(s)), " "@)
}

pub fn hyphenated_to_spaced(value: &str) -> (r: String)
    ensures
        r@ == hyphen_spaced(value@),
{
    let v = chars_of(value);
    let parts = name_pieces_chars(&v);
    let mut words: Vec<String> = Vec::new();
    let mut i: usize = 0;
    while i < parts.len()
        invariant
            i <= parts@.len(),
            string_views(words@) == name_words(views(parts@).take(i as int)),
        decreases parts@.len() - i,
    {
        let ghost pv = views(parts@);
        assert(pv.take(i + 1).drop_last() =~= pv.take(i as int));
        assert(pv.take(i + 1).last() == parts@[i as int]@);
        if parts[i].len() > 0 && !version_or_loader_chars(&parts[i]) {
            let ghost before = words@;
            let w = string_of(&parts[i]);
            words.push(w);
            assert(string_views(words@) =~= string_views(before).push(w@));
        }
        i = i + 1;
    }
    assert(views(parts@).take(parts@.len() as int) =~= views(parts@));
    join_strings(&words, " ")
}

/// A one-letter side marker (`C-`, `S-`, `U-`) removed from the front.
pub open spec fn side_prefix_stripped(s: Seq<char>) -> Seq<char> {
    if s.len() >= 2 && s[1] == '-' && (lower_char(s[0]) == 'c' || lower_char(s[0]) == 's'
        || lower_char(s[0]) == 'u') {
        s.subrange(2, s.len() as int)
    } else {
        s
    }
}

fn side_prefix_stripped_chars(v: &[char]) -> (r: Vec<char>)
    ensures
        r@ == side_prefix_stripped(v@),
{
    if v.len() >= 2 && v[1] == '-' {
        let p = char_lower(v[0]);
        if p == 'c' || p == 's' || p == 'u' {
            return slice_chars(v, 2, v.len());
        }
    }
    slice_chars(v, 0, v.len())
}

pub fn strip_side_prefix(value: &str) -> (r: String)
    ensures
        r@ == side_prefix_stripped(value@),
{
    let v = chars_of(value);
    assert(v@.subrange(0, v@.len() as int) =~= v@);
    let out = side_prefix_stripped_chars(&v);
    string_of(&out)
}

/// A word with its first character upper-cased.
pub open spec fn capitalized(w: Seq<char>) -> Seq<char> {
    if w.len() == 0 {
        w
    } else {
        seq![upper_char(w[0])] + w.drop_first()
    }
}

/// Words of an all-lower-case text capitalised; text with any upper-case
/// letter is kept as it is.
pub open spec fn title_cased(s: Seq<char>) -> Seq<char> {
    if any_upper(s) {
        s
    } else {
        join(split_whitespace(s).map_values(|w: Seq<char>| capitalized(w)), " "@)
    }
}

pub fn title_case_if_lowercase(value: &str) -> (r: String)
    ensures
        r@ == title_cased(value@),
{
    let v = chars_of(value);
    if any_upper_chars(&v) {
        return string_of(&v);
    }
    let words = split_whitespace_chars(&v);
    let ghost wv = views(words@);
    let mut caps: Vec<Vec<char>> = Vec::new();
    let mut i: usize = 0;
    while i < words.len()
        invariant
            i <= words@.len(),
            wv == views(words@),
            views(caps@) == wv.take(i as int).map_values(|w: Seq<char>| capitalized(w)),
        decreases words@.len() - i,
    {
        let w = &words[i];
        let mut c: Vec<char> = Vec::new();
        if w.len() > 0 {
            c.push(char_upper(w[0]));
            let rest = slice_chars(w, 1, w.len());
            append_chars(&mut c, &rest);
            assert(c@ =~= capitalized(w@));
        } else {
            assert(c@ =~= capitalized(w@));
        }
        let ghost before = caps@;
        caps.push(c);
        assert(views(caps@) =~= views(before).push(capitalized(wv[i as int])));
        assert(wv.take(i + 1).map_values(|w: Seq<char>| capitalized(w)) =~= wv.take(i as int).map_values(|w: Seq<char>| capitalized(w)).push(capitalized(wv[i as int])));
        i = i + 1;
    }
    assert(wv.take(wv.len() as int) =~= wv);
    let sep = vec![' '];
    let joined = join_vecs(&caps, &sep);
    proof {
        reveal_strlit(" ");
        assert(sep@ =~= " "@);
    }
    string_of(&joined)
}

/// The readable name of a mod taken from its jar file name.
pub open spec fn display_name(filename: Seq<char>) -> Seq<char> {
    let stem = trim_end_str(filename, ".jar"@);
    let stripped = version_suffixes_stripped(side_prefix_stripped(stem));
    let spaced = hyphen_spaced(camel_spaced(stripped));
    let clean = title_cased(trim(spaced));
    if clean.len() == 0 {
        stem
    } else {
        clean
    }
}

pub fn display_name_from_filename(filename: &str) -> (r: String)
    ensures
        r@ == display_name(filename@),
{
    let v = chars_of(filename);
    let stem = trim_end_str_chars(&v, ".jar");
    let without = side_prefix_stripped_chars(&stem);
    let without_s = string_of(&without);
    let stripped = strip_version_suffixes(without_s.as_str());
    let camel = spaced_camel_case(stripped.as_str());
    let spaced = hyphenated_to_spaced(camel.as_str());
    let st = trim_string(spaced.as_str());
    let clean = title_case_if_lowercase(st.as_str());
    if clean.as_str().is_empty() {
        string_of(&stem)
    } else {
        clean
    }
}

/// The pieces whose trimmed text is not empty.
pub open spec fn non_blank(parts: Seq<Seq<char>>) -> Seq<Seq<char>>
    decreases parts.len(),
{
    if parts.len() == 0 {
        parts
    } else if trim(parts.last()).len() > 0 {
        non_blank(parts.drop_last()).push(parts.last())
    } else {
        non_blank(parts.drop_last())
    }
}

/// Start of the run of version/loader pieces that ends the list (the first
/// piece is never part of it).
pub open spec fn suffix_start(raw: Seq<Seq<char>>, k: int) -> int
    decreases k,
{
    if k > 1 && version_or_loader(raw[k - 1]) {
        suffix_start(raw, k - 1)
    } else {
        k
    }
}

pub open spec fn drop_leading_loaders(parts: Seq<Seq<char>>) -> Seq<Seq<char>>
    decreases parts.len(),
{
    if parts.len() > 0 && loader_segment(parts[0]) {
        drop_leading_loaders(parts.drop_first())
    } else {
        parts
    }
}

/// The mod version named by a jar file name: the version/loader tail of the
/// name, without its leading loader pieces and without one Minecraft version,
/// joined with `-`.
pub open spec fn installed_version(filename: Seq<char>) -> Option<Seq<char>> {
    let stem = trim_end_str(filename, ".jar"@);
    let raw = non_blank(name_pieces(side_prefix_stripped(stem)));
    if raw.len() <= 1 {
        None
    } else {
        let k = suffix_start(raw, raw.len() as int);
        if k == raw.len() {
            None
        } else {
            let p = drop_leading_loaders(raw.subrange(k, raw.len() as int));
            let p2 = if p.len() > 0 && minecraft_version_segment(p[0]) {
                p.drop_first()
            } else {
                p
            };
            let version = join(p2, "-"@);
            if trim(version).len() == 0 {
                None
            } else {
                Some(version)
            }
        }
    }
}

fn non_blank_vecs(parts: &Vec<Vec<char>>) -> (r: Vec<Vec<char>>)
    ensures
        views(r@) == non_blank(views(parts@)),
{
    let mut r: Vec<Vec<char>> = Vec::new();
    let mut i: usize = 0;
    while i < parts.len()
        invariant
            i <= parts@.len(),
            views(r@) == non_blank(views(parts@).take(i as int)),
        decreases parts@.len() - i,
    {
        let ghost pv = views(parts@);
        assert(pv.take(i + 1).drop_last() =~= pv.take(i as int));
        assert(pv.take(i + 1).last() == parts@[i as int]@);
        let t = trim_chars(&parts[i]);
        if t.len() > 0 {
            let ghost before = r@;
            r.push(parts[i].clone());
            assert(views(r@) =~= views(before).push(parts@[i as int]@));
        }
        i = i + 1;
    }
    assert(views(parts@).take(parts@.len() as int) =~= views(parts@));
    r
}

#[verifier::loop_isolation(false)]
pub fn installed_version_from_filename(filename: &str) -> (r: Option<String>)
    ensures
        match r {
            Some(x) => installed_version(filename@) == Some(x@),
            None => installed_version(filename@) is None,
        },
{
    let v = chars_of(filename);
    let stem = trim_end_str_chars(&v, ".jar");
    let without = side_prefix_stripped_chars(&stem);
    let pieces = name_pieces_chars(&without);
    let raw = non_blank_vecs(&pieces);
    let ghost rv = views(raw@);
    if raw.len() <= 1 {
        return None;
    }
    let mut k: usize = raw.len();
    while k > 1 && version_or_loader_chars(&raw[k - 1])
        invariant
            1 <= k <= raw@.len(),
            rv == views(raw@),
            suffix_start(rv, rv.len() as int) == suffix_start(rv, k as int),
        decreases k,
    {
        k = k - 1;
    }
    if k == raw.len() {
        return None;
    }
    let mut start: usize = k;
    assert(rv.subrange(k as int, rv.len() as int).subrange(0, (rv.len() - k) as int) =~= rv.subrange(k as int, rv.len() as int));
    while start < raw.len() && loader_segment_chars(&raw[start])
        invariant
            k <= start <= raw@.len(),
            rv == views(raw@),
            drop_leading_loaders(rv.subrange(k as int, rv.len() as int)) == drop_leading_loaders(
                rv.subrange(start as int, rv.len() as int),
            ),
        decreases raw@.len() - start,
    {
        assert(rv.subrange(start as int, rv.len() as int)[0] == raw@[start as int]@);
        assert(rv.subrange(start as int, rv.len() as int).drop_first() =~= rv.subrange(start + 1, rv.len() as int));
        start = start + 1;
    }
    proof {
        if start < rv.len() {
            assert(rv.subrange(start as int, rv.len() as int)[0] == rv[start as int]);
        }
    }
    if start < raw.len() && minecraft_version_segment_chars(&raw[start]) {
        assert(rv.subrange(start as int, rv.len() as int)[0] == rv[start as int]);
        assert(rv.subrange(start as int, rv.len() as int).drop_first() =~= rv.subrange(start + 1, rv.len() as int));
        start = start + 1;
    }
    let mut rest: Vec<String> = Vec::new();
    let mut i: usize = start;
    while i < raw.len()
        invariant
            start <= i <= raw@.len(),
            rv == views(raw@),
            string_views(rest@) == rv.subrange(start as int, i as int),
        decreases raw@.len() - i,
    {
        let ghost before = rest@;
        let st = string_of(&raw[i]);
        rest.push(st);
        assert(string_views(rest@) =~= string_views(before).push(st@));
        assert(rv.subrange(start as int, i + 1) =~= rv.subrange(start as int, i as int).push(rv[i as int]));
        i = i + 1;
    }
    let version = join_strings(&rest, "-");
    let tv = trimmed(version.as_str());
    if tv.len() == 0 {
        None
    } else {
        Some(version)
    }
}

} // verus!
