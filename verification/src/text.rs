//! Character-level text model shared by the whole library.
//!
//! Every string is modelled by its sequence of Unicode scalar values
//! (`Seq<char>`, the view of `str` and `String`). The spec functions here say
//! what the usual text operations (trimming, case folding, searching, splitting,
//! joining) mean on that model, and the executable functions are proved to
//! compute exactly that.
use vstd::prelude::*;
use vstd::string::StringExecFns;

verus! {

/// `String::push` appends one character.
pub assume_specification[ String::push ](s: &mut String, ch: char)
    ensures
        final(s)@ == old(s)@.push(ch),
;

/// The view of an optional string.
pub open spec fn opt_view(o: Option<String>) -> Option<Seq<char>> {
    match o {
        Some(s) => Some(s@),
        None => None,
    }
}

// ---------------------------------------------------------------------------
// Characters
// ---------------------------------------------------------------------------

/// Unicode `White_Space`, the set that `char::is_whitespace` and `str::trim` use.
pub open spec fn is_ws(c: char) -> bool {
    let n = c as u32;
    (0x09 <= n && n <= 0x0D) || n == 0x20 || n == 0x85 || n == 0xA0 || n == 0x1680 || (0x2000
        <= n && n <= 0x200A) || n == 0x2028 || n == 0x2029 || n == 0x202F || n == 0x205F || n
        == 0x3000
}

pub open spec fn is_digit(c: char) -> bool {
    '0' <= c && c <= '9'
}

pub open spec fn is_upper(c: char) -> bool {
    'A' <= c && c <= 'Z'
}

pub open spec fn is_lower(c: char) -> bool {
    'a' <= c && c <= 'z'
}

pub open spec fn is_alpha(c: char) -> bool {
    is_upper(c) || is_lower(c)
}

pub open spec fn is_alnum(c: char) -> bool {
    is_alpha(c) || is_digit(c)
}

/// ASCII lower-casing of one character; every other character is kept.
pub open spec fn lower_char(c: char) -> char {
    if is_upper(c) {
        ((c as u32) + 32) as char
    } else {
        c
    }
}

/// ASCII upper-casing of one character; every other character is kept.
pub open spec fn upper_char(c: char) -> char {
    if is_lower(c) {
        ((c as u32) - 32) as char
    } else {
        c
    }
}

pub fn char_is_ws(c: char) -> (r: bool)
    ensures
        r == is_ws(c),
{
    let n = c as u32;
    (0x09 <= n && n <= 0x0D) || n == 0x20 || n == 0x85 || n == 0xA0 || n == 0x1680 || (0x2000
        <= n && n <= 0x200A) || n == 0x2028 || n == 0x2029 || n == 0x202F || n == 0x205F || n
        == 0x3000
}

pub fn char_is_digit(c: char) -> (r: bool)
    ensures
        r == is_digit(c),
{
    '0' <= c && c <= '9'
}

pub fn char_is_upper(c: char) -> (r: bool)
    ensures
        r == is_upper(c),
{
    'A' <= c && c <= 'Z'
}

pub fn char_is_lower(c: char) -> (r: bool)
    ensures
        r == is_lower(c),
{
    'a' <= c && c <= 'z'
}

pub fn char_is_alnum(c: char) -> (r: bool)
    ensures
        r == is_alnum(c),
{
    char_is_upper(c) || char_is_lower(c) || char_is_digit(c)
}

pub fn char_lower(c: char) -> (r: char)
    ensures
        r == lower_char(c),
{
    if char_is_upper(c) {
        let n: u8 = (c as u32) as u8;
        (n + 32) as char
    } else {
        c
    }
}

pub fn char_upper(c: char) -> (r: char)
    ensures
        r == upper_char(c),
{
    if char_is_lower(c) {
        let n: u8 = (c as u32) as u8;
        (n - 32) as char
    } else {
        c
    }
}

// ---------------------------------------------------------------------------
// Conversions
// ---------------------------------------------------------------------------

/// The characters of a string slice.
pub fn chars_of(s: &str) -> (r: Vec<char>)
    ensures
        r@ == s@,
{
    let mut r: Vec<char> = Vec::new();
    for c in iter: s.chars()
        invariant
            r@ == iter.seq().take(iter.index() as int),
    {
        r.push(c);
    }
    r
}

/// A string made of the given characters.
pub fn string_of(v: &[char]) -> (r: String)
    ensures
        r@ == v@,
{
    let mut r = String::new();
    let mut i: usize = 0;
    while i < v.len()
        invariant
            i <= v@.len(),
            r@ == v@.take(i as int),
        decreases v@.len() - i,
    {
        r.push(v[i]);
        assert(v@.take(i + 1) =~= v@.take(i as int).push(v@[i as int]));
        i = i + 1;
    }
    assert(v@.take(v@.len() as int) =~= v@);
    r
}

/// The characters `v[a..b]`.
pub fn slice_chars(v: &[char], a: usize, b: usize) -> (r: Vec<char>)
    requires
        a <= b <= v@.len(),
    ensures
        r@ == v@.subrange(a as int, b as int),
{
    let mut r: Vec<char> = Vec::new();
    let mut i: usize = a;
    while i < b
        invariant
            a <= i <= b <= v@.len(),
            r@ == v@.subrange(a as int, i as int),
        decreases b - i,
    {
        r.push(v[i]);
        assert(v@.subrange(a as int, i + 1) =~= v@.subrange(a as int, i as int).push(v@[i as int]));
        i = i + 1;
    }
    r
}

/// Character-wise equality.
pub fn eq_chars(a: &[char], b: &[char]) -> (r: bool)
    ensures
        r == (a@ == b@),
{
    if a.len() != b.len() {
        return false;
    }
    let mut i: usize = 0;
    while i < a.len()
        invariant
            a@.len() == b@.len(),
            i <= a@.len(),
            forall|j: int| 0 <= j < i ==> a@[j] == b@[j],
        decreases a@.len() - i,
    {
        if a[i] != b[i] {
            return false;
        }
        i = i + 1;
    }
    assert(a@ =~= b@);
    true
}

/// Whether the characters equal those of a string slice.
pub fn eq_str(a: &[char], b: &str) -> (r: bool)
    ensures
        r == (a@ == b@),
{
    let bv = chars_of(b);
    eq_chars(a, &bv)
}

// ---------------------------------------------------------------------------
// Case folding
// ---------------------------------------------------------------------------

pub open spec fn lower(s: Seq<char>) -> Seq<char> {
    s.map_values(|c: char| lower_char(c))
}

pub fn to_lower(v: &[char]) -> (r: Vec<char>)
    ensures
        r@ == lower(v@),
{
    let mut r: Vec<char> = Vec::new();
    let mut i: usize = 0;
    while i < v.len()
        invariant
            i <= v@.len(),
            r@ == lower(v@.take(i as int)),
        decreases v@.len() - i,
    {
        r.push(char_lower(v[i]));
        assert(lower(v@.take(i + 1)) =~= lower(v@.take(i as int)).push(lower_char(v@[i as int])));
        i = i + 1;
    }
    assert(v@.take(v@.len() as int) =~= v@);
    r
}

/// Equality after ASCII case folding of both sides (`eq_ignore_ascii_case`).
pub open spec fn eq_ignore_case(a: Seq<char>, b: Seq<char>) -> bool {
    lower(a) == lower(b)
}

pub fn eq_ignore_case_chars(a: &[char], b: &[char]) -> (r: bool)
    ensures
        r == eq_ignore_case(a@, b@),
{
    let la = to_lower(a);
    let lb = to_lower(b);
    eq_chars(&la, &lb)
}

// ---------------------------------------------------------------------------
// Trimming
// ---------------------------------------------------------------------------

pub open spec fn trim_start(s: Seq<char>) -> Seq<char>
    decreases s.len(),
{
    if s.len() > 0 && is_ws(s[0]) {
        trim_start(s.drop_first())
    } else {
        s
    }
}

pub open spec fn trim_end(s: Seq<char>) -> Seq<char>
    decreases s.len(),
{
    if s.len() > 0 && is_ws(s.last()) {
        trim_end(s.drop_last())
    } else {
        s
    }
}

/// `str::trim`: white space removed from both ends.
pub open spec fn trim(s: Seq<char>) -> Seq<char> {
    trim_end(trim_start(s))
}

/// Index of the first character that is not white space (or the length).
pub fn trim_start_index(v: &[char]) -> (r: usize)
    ensures
        r <= v@.len(),
        trim_start(v@) == v@.subrange(r as int, v@.len() as int),
{
    let mut i: usize = 0;
    assert(v@.subrange(0, v@.len() as int) =~= v@);
    while i < v.len() && char_is_ws(v[i])
        invariant
            i <= v@.len(),
            trim_start(v@) == trim_start(v@.subrange(i as int, v@.len() as int)),
        decreases v@.len() - i,
    {
        assert(v@.subrange(i as int, v@.len() as int).drop_first() =~= v@.subrange(i + 1, v@.len() as int));
        i = i + 1;
    }
    proof { r_helper_trim_start(v@, i); }
    i
}

proof fn r_helper_trim_start(s: Seq<char>, i: usize)
    requires
        i <= s.len(),
        i == s.len() || !is_ws(s[i as int]),
    ensures
        trim_start(s.subrange(i as int, s.len() as int)) == s.subrange(i as int, s.len() as int),
{
}

/// Index just past the last character that is not white space (or zero).
pub fn trim_end_index(v: &[char]) -> (r: usize)
    ensures
        r <= v@.len(),
        trim_end(v@) == v@.subrange(0, r as int),
{
    let mut i: usize = v.len();
    assert(v@.subrange(0, v@.len() as int) =~= v@);
    while i > 0 && char_is_ws(v[i - 1])
        invariant
            i <= v@.len(),
            trim_end(v@) == trim_end(v@.subrange(0, i as int)),
        decreases i,
    {
        assert(v@.subrange(0, i as int).drop_last() =~= v@.subrange(0, i - 1));
        i = i - 1;
    }
    i
}

pub fn trim_start_chars(v: &[char]) -> (r: Vec<char>)
    ensures
        r@ == trim_start(v@),
{
    let a = trim_start_index(v);
    slice_chars(v, a, v.len())
}

pub fn trim_end_chars(v: &[char]) -> (r: Vec<char>)
    ensures
        r@ == trim_end(v@),
{
    let b = trim_end_index(v);
    slice_chars(v, 0, b)
}

pub fn trim_chars(v: &[char]) -> (r: Vec<char>)
    ensures
        r@ == trim(v@),
{
    let s = trim_start_chars(v);
    trim_end_chars(&s)
}

/// The characters of `s.trim()`.
pub fn trimmed(s: &str) -> (r: Vec<char>)
    ensures
        r@ == trim(s@),
{
    let v = chars_of(s);
    trim_chars(&v)
}

/// `s.trim().to_string()`.
pub fn trim_string(s: &str) -> (r: String)
    ensures
        r@ == trim(s@),
{
    let t = trimmed(s);
    string_of(&t)
}

// ---------------------------------------------------------------------------
// Prefixes, suffixes, searching
// ---------------------------------------------------------------------------

pub open spec fn starts_with(s: Seq<char>, p: Seq<char>) -> bool {
    p.len() <= s.len() && s.subrange(0, p.len() as int) == p
}

pub open spec fn ends_with(s: Seq<char>, p: Seq<char>) -> bool {
    p.len() <= s.len() && s.subrange(s.len() - p.len(), s.len() as int) == p
}

/// `p` occurs in `s` at index `i`.
pub open spec fn matches_at(s: Seq<char>, i: int, p: Seq<char>) -> bool {
    0 <= i && i + p.len() <= s.len() && s.subrange(i, i + p.len()) == p
}

/// The first index at or after `i` where `p` occurs.
pub open spec fn find_from(s: Seq<char>, p: Seq<char>, i: int) -> Option<int>
    decreases s.len() + 1 - i,
{
    if i < 0 || i + p.len() > s.len() {
        None
    } else if matches_at(s, i, p) {
        Some(i)
    } else {
        find_from(s, p, i + 1)
    }
}

/// `str::find`.
pub open spec fn find(s: Seq<char>, p: Seq<char>) -> Option<int> {
    find_from(s, p, 0)
}

/// `str::contains`.
pub open spec fn contains(s: Seq<char>, p: Seq<char>) -> bool {
    find(s, p) is Some
}

pub fn matches_at_exec(v: &[char], i: usize, p: &[char]) -> (r: bool)
    ensures
        r == matches_at(v@, i as int, p@),
{
    if i > v.len() || p.len() > v.len() - i {
        return false;
    }
    let n = v.len();
    let mut j: usize = 0;
    while j < p.len()
        invariant
            n == v@.len(),
            i + p@.len() <= v@.len(),
            i <= v@.len(),
            j <= p@.len(),
            forall|k: int| 0 <= k < j ==> v@[i + k] == p@[k],
        decreases p@.len() - j,
    {
        if v[i + j] != p[j] {
            assert(v@.subrange(i as int, i + p@.len())[j as int] != p@[j as int]);
            return false;
        }
        j = j + 1;
    }
    assert(v@.subrange(i as int, i + p@.len()) =~= p@);
    true
}

pub fn starts_with_chars(v: &[char], p: &[char]) -> (r: bool)
    ensures
        r == starts_with(v@, p@),
{
    matches_at_exec(v, 0, p)
}

pub fn ends_with_chars(v: &[char], p: &[char]) -> (r: bool)
    ensures
        r == ends_with(v@, p@),
{
    if p.len() > v.len() {
        return false;
    }
    matches_at_exec(v, v.len() - p.len(), p)
}

pub fn starts_with_str(v: &[char], p: &str) -> (r: bool)
    ensures
        r == starts_with(v@, p@),
{
    let pv = chars_of(p);
    starts_with_chars(v, &pv)
}

pub fn ends_with_str(v: &[char], p: &str) -> (r: bool)
    ensures
        r == ends_with(v@, p@),
{
    let pv = chars_of(p);
    ends_with_chars(v, &pv)
}

pub fn find_from_exec(v: &[char], p: &[char], start: usize) -> (r: Option<usize>)
    ensures
        match r {
            Some(i) => find_from(v@, p@, start as int) == Some(i as int),
            None => find_from(v@, p@, start as int) is None,
        },
{
    let mut i: usize = start;
    while i <= v.len() && p.len() <= v.len() - i
        invariant
            start <= i,
            find_from(v@, p@, start as int) == find_from(v@, p@, i as int),
        decreases v@.len() + 1 - i,
    {
        if matches_at_exec(v, i, p) {
            return Some(i);
        }
        if i == v.len() {
            assert(find_from(v@, p@, i + 1) is None);
            return None;
        }
        i = i + 1;
    }
    None
}

pub fn find_chars(v: &[char], p: &[char]) -> (r: Option<usize>)
    ensures
        match r {
            Some(i) => find(v@, p@) == Some(i as int),
            None => find(v@, p@) is None,
        },
{
    find_from_exec(v, p, 0)
}

pub fn contains_chars(v: &[char], p: &[char]) -> (r: bool)
    ensures
        r == contains(v@, p@),
{
    find_chars(v, p).is_some()
}

pub fn contains_str(v: &[char], p: &str) -> (r: bool)
    ensures
        r == contains(v@, p@),
{
    let pv = chars_of(p);
    contains_chars(v, &pv)
}

/// Whether the character occurs in the sequence.
pub fn has_char(v: &[char], c: char) -> (r: bool)
    ensures
        r == v@.contains(c),
{
    let mut i: usize = 0;
    while i < v.len()
        invariant
            i <= v@.len(),
            forall|k: int| 0 <= k < i ==> v@[k] != c,
        decreases v@.len() - i,
    {
        if v[i] == c {
            return true;
        }
        i = i + 1;
    }
    false
}

// ---------------------------------------------------------------------------
// Splitting and joining
// ---------------------------------------------------------------------------

/// `str::split` on any character of `seps`: the pieces between separators,
/// empty pieces included; there is always one piece more than separators.
pub open spec fn split_by(s: Seq<char>, seps: Seq<char>) -> Seq<Seq<char>>
    decreases s.len(),
{
    if s.len() == 0 {
        seq![Seq::<char>::empty()]
    } else {
        let prev = split_by(s.drop_last(), seps);
        if seps.contains(s.last()) {
            prev.push(Seq::<char>::empty())
        } else {
            prev.update(prev.len() - 1, prev.last().push(s.last()))
        }
    }
}

pub proof fn lemma_split_by_nonempty(s: Seq<char>, seps: Seq<char>)
    ensures
        split_by(s, seps).len() >= 1,
    decreases s.len(),
{
    if s.len() > 0 {
        lemma_split_by_nonempty(s.drop_last(), seps);
    }
}

/// The views of a list of character vectors.
pub open spec fn views(v: Seq<Vec<char>>) -> Seq<Seq<char>> {
    v.map_values(|x: Vec<char>| x@)
}

/// The views of a list of strings.
pub open spec fn string_views(v: Seq<String>) -> Seq<Seq<char>> {
    v.map_values(|x: String| x@)
}

pub fn split_chars(v: &[char], seps: &[char]) -> (r: Vec<Vec<char>>)
    ensures
        views(r@) == split_by(v@, seps@),
{
    let mut parts: Vec<Vec<char>> = Vec::new();
    let mut cur: Vec<char> = Vec::new();
    let mut i: usize = 0;
    proof {
        assert(v@.take(0) =~= Seq::<char>::empty());
        assert(views(parts@).push(cur@) =~= seq![Seq::<char>::empty()]);
    }
    while i < v.len()
        invariant
            i <= v@.len(),
            views(parts@).push(cur@) == split_by(v@.take(i as int), seps@),
        decreases v@.len() - i,
    {
        let c = v[i];
        let ghost prev = split_by(v@.take(i as int), seps@);
        let ghost old_parts = parts@;
        let ghost old_cur = cur@;
        proof {
            assert(v@.take(i + 1).drop_last() =~= v@.take(i as int));
            assert(v@.take(i + 1).last() == c);
        }
        if has_char(seps, c) {
            let done = cur;
            cur = Vec::new();
            parts.push(done);
            proof {
                assert(views(parts@) =~= views(old_parts).push(old_cur));
                assert(views(parts@).push(cur@) =~= prev.push(Seq::<char>::empty()));
            }
        } else {
            cur.push(c);
            proof {
                assert(prev.last() == old_cur);
                assert(views(parts@).push(cur@) =~= prev.update(prev.len() - 1, prev.last().push(c)));
            }
        }
        i = i + 1;
    }
    assert(v@.take(v@.len() as int) =~= v@);
    let ghost before = parts@;
    parts.push(cur);
    assert(views(parts@) =~= views(before).push(cur@));
    parts
}

/// Drops one trailing carriage return.
pub open spec fn strip_cr(l: Seq<char>) -> Seq<char> {
    if l.len() > 0 && l.last() == '\r' {
        l.drop_last()
    } else {
        l
    }
}

/// `str::lines`: split at `\n`; a line that ended in `\n` loses one trailing
/// `\r`; a final empty piece (after a trailing newline, or of an empty text) is
/// not a line.
pub open spec fn lines(s: Seq<char>) -> Seq<Seq<char>> {
    let parts = split_by(s, seq!['\n']);
    let body = parts.drop_last().map_values(|l: Seq<char>| strip_cr(l));
    if parts.last().len() == 0 {
        body
    } else {
        body.push(parts.last())
    }
}

pub fn strip_cr_chars(v: Vec<char>) -> (r: Vec<char>)
    ensures
        r@ == strip_cr(v@),
{
    let mut v = v;
    if v.len() > 0 && v[v.len() - 1] == '\r' {
        v.pop();
    }
    v
}

pub fn lines_chars(v: &[char]) -> (r: Vec<Vec<char>>)
    ensures
        views(r@) == lines(v@),
{
    let seps = vec!['\n'];
    let parts = split_chars(v, &seps);
    proof {
        assert(seps@ =~= seq!['\n']);
        lemma_split_by_nonempty(v@, seq!['\n']);
    }
    let ghost pv = views(parts@);
    let n = parts.len();
    let mut out: Vec<Vec<char>> = Vec::new();
    let mut i: usize = 0;
    while i + 1 < n
        invariant
            n == parts@.len(),
            n >= 1,
            pv == views(parts@),
            i + 1 <= n,
            views(out@) == pv.take(i as int).map_values(|l: Seq<char>| strip_cr(l)),
        decreases n - i,
    {
        let line = parts[i].clone();
        let line = strip_cr_chars(line);
        let ghost before = out@;
        out.push(line);
        proof {
            assert(views(out@) =~= views(before).push(line@));
            assert(pv.take(i + 1) =~= pv.take(i as int).push(pv[i as int]));
            assert(pv.take(i + 1).map_values(|l: Seq<char>| strip_cr(l)) =~= pv.take(i as int).map_values(|l: Seq<char>| strip_cr(l)).push(strip_cr(pv[i as int])));
        }
        i = i + 1;
    }
    assert(pv.take(i as int) =~= pv.drop_last());
    let last = parts[n - 1].clone();
    if last.len() == 0 {
        out
    } else {
        let ghost before = out@;
        out.push(last);
        assert(views(out@) =~= views(before).push(last@));
        out
    }
}

/// Parts joined with a separator between neighbours.
pub open spec fn join(parts: Seq<Seq<char>>, sep: Seq<char>) -> Seq<char>
    decreases parts.len(),
{
    if parts.len() == 0 {
        Seq::<char>::empty()
    } else if parts.len() == 1 {
        parts[0]
    } else {
        join(parts.drop_last(), sep) + sep + parts.last()
    }
}

pub fn join_strings(parts: &Vec<String>, sep: &str) -> (r: String)
    ensures
        r@ == join(string_views(parts@), sep@),
{
    let mut r = String::new();
    let mut i: usize = 0;
    while i < parts.len()
        invariant
            i <= parts@.len(),
            r@ == join(string_views(parts@).take(i as int), sep@),
        decreases parts@.len() - i,
    {
        let ghost sv = string_views(parts@);
        proof {
            assert(sv.take(i + 1).drop_last() =~= sv.take(i as int));
            assert(sv.take(i + 1).last() == parts@[i as int]@);
        }
        if i > 0 {
            r.append(sep);
        } else {
            assert(sv.take(1) =~= seq![parts@[0]@]);
        }
        r.append(parts[i].as_str());
        i = i + 1;
    }
    assert(string_views(parts@).take(parts@.len() as int) =~= string_views(parts@));
    r
}

pub fn join_vecs(parts: &Vec<Vec<char>>, sep: &[char]) -> (r: Vec<char>)
    ensures
        r@ == join(views(parts@), sep@),
{
    let mut r: Vec<char> = Vec::new();
    let mut i: usize = 0;
    while i < parts.len()
        invariant
            i <= parts@.len(),
            r@ == join(views(parts@).take(i as int), sep@),
        decreases parts@.len() - i,
    {
        let ghost sv = views(parts@);
        let ghost before = r@;
        proof {
            assert(sv.take(i + 1).drop_last() =~= sv.take(i as int));
            assert(sv.take(i + 1).last() == parts@[i as int]@);
        }
        if i > 0 {
            append_chars(&mut r, sep);
        } else {
            assert(sv.take(1) =~= seq![parts@[0]@]);
        }
        append_chars(&mut r, &parts[i]);
        proof {
            if i > 0 {
                assert(r@ =~= before + sep@ + parts@[i as int]@);
            } else {
                assert(r@ =~= parts@[0]@);
            }
        }
        i = i + 1;
    }
    assert(views(parts@).take(parts@.len() as int) =~= views(parts@));
    r
}

/// Appends characters.
pub fn append_chars(r: &mut Vec<char>, s: &[char])
    ensures
        final(r)@ == old(r)@ + s@,
{
    let mut i: usize = 0;
    while i < s.len()
        invariant
            i <= s@.len(),
            r@ == old(r)@ + s@.take(i as int),
        decreases s@.len() - i,
    {
        r.push(s[i]);
        assert(s@.take(i + 1) =~= s@.take(i as int).push(s@[i as int]));
        assert(r@ =~= old(r)@ + s@.take(i + 1));
        i = i + 1;
    }
    assert(s@.take(s@.len() as int) =~= s@);
}

/// Every occurrence of `c` replaced by `t`.
pub open spec fn replace_char(s: Seq<char>, c: char, t: Seq<char>) -> Seq<char>
    decreases s.len(),
{
    if s.len() == 0 {
        Seq::<char>::empty()
    } else {
        replace_char(s.drop_last(), c, t) + (if s.last() == c {
            t
        } else {
            seq![s.last()]
        })
    }
}

pub fn replace_char_chars(v: &[char], c: char, t: &[char]) -> (r: Vec<char>)
    ensures
        r@ == replace_char(v@, c, t@),
{
    let mut r: Vec<char> = Vec::new();
    let mut i: usize = 0;
    while i < v.len()
        invariant
            i <= v@.len(),
            r@ == replace_char(v@.take(i as int), c, t@),
        decreases v@.len() - i,
    {
        let ghost before = r@;
        assert(v@.take(i + 1).drop_last() =~= v@.take(i as int));
        if v[i] == c {
            append_chars(&mut r, t);
        } else {
            r.push(v[i]);
            assert(r@ =~= before + seq![v@[i as int]]);
        }
        i = i + 1;
    }
    assert(v@.take(v@.len() as int) =~= v@);
    r
}

// ---------------------------------------------------------------------------
// Byte length, repeated stripping, lists of pieces
// ---------------------------------------------------------------------------

/// Bytes taken by one character in UTF-8.
pub open spec fn utf8_width(c: char) -> nat {
    let n = c as u32;
    if n < 0x80 {
        1
    } else if n < 0x800 {
        2
    } else if n < 0x10000 {
        3
    } else {
        4
    }
}

/// The length in bytes of the UTF-8 encoding (what `str::len` counts).
pub open spec fn byte_len(s: Seq<char>) -> nat
    decreases s.len(),
{
    if s.len() == 0 {
        0
    } else {
        byte_len(s.drop_last()) + utf8_width(s.last())
    }
}

/// Whether the UTF-8 length is at most `limit`.
pub fn byte_len_at_most(v: &[char], limit: usize) -> (r: bool)
    requires
        limit < 0x1_0000,
    ensures
        r == (byte_len(v@) <= limit),
{
    let mut total: usize = 0;
    let mut i: usize = 0;
    while i < v.len()
        invariant
            i <= v@.len(),
            total == byte_len(v@.take(i as int)),
            total <= limit,
            limit < 0x1_0000,
        decreases v@.len() - i,
    {
        let n = v[i] as u32;
        let w: usize = if n < 0x80 {
            1
        } else if n < 0x800 {
            2
        } else if n < 0x10000 {
            3
        } else {
            4
        };
        assert(v@.take(i + 1).drop_last() =~= v@.take(i as int));
        total = total + w;
        if total > limit {
            proof {
                lemma_byte_len_prefix_le(v@, i + 1);
            }
            return false;
        }
        i = i + 1;
    }
    assert(v@.take(v@.len() as int) =~= v@);
    true
}

proof fn lemma_byte_len_prefix_le(s: Seq<char>, k: int)
    requires
        0 <= k <= s.len(),
    ensures
        byte_len(s.take(k)) <= byte_len(s),
    decreases s.len() - k,
{
    if k < s.len() {
        lemma_byte_len_prefix_le(s, k + 1);
        assert(s.take(k + 1).drop_last() =~= s.take(k));
    } else {
        assert(s.take(k) =~= s);
    }
}

/// `trim_start_matches(c)`.
pub open spec fn trim_start_char(s: Seq<char>, c: char) -> Seq<char>
    decreases s.len(),
{
    if s.len() > 0 && s[0] == c {
        trim_start_char(s.drop_first(), c)
    } else {
        s
    }
}

/// `trim_end_matches(c)`.
pub open spec fn trim_end_char(s: Seq<char>, c: char) -> Seq<char>
    decreases s.len(),
{
    if s.len() > 0 && s.last() == c {
        trim_end_char(s.drop_last(), c)
    } else {
        s
    }
}

pub fn trim_start_char_chars(v: &[char], c: char) -> (r: Vec<char>)
    ensures
        r@ == trim_start_char(v@, c),
{
    let mut i: usize = 0;
    assert(v@.subrange(0, v@.len() as int) =~= v@);
    while i < v.len() && v[i] == c
        invariant
            i <= v@.len(),
            trim_start_char(v@, c) == trim_start_char(v@.subrange(i as int, v@.len() as int), c),
        decreases v@.len() - i,
    {
        assert(v@.subrange(i as int, v@.len() as int).drop_first() =~= v@.subrange(i + 1, v@.len() as int));
        i = i + 1;
    }
    slice_chars(v, i, v.len())
}

pub fn trim_end_char_chars(v: &[char], c: char) -> (r: Vec<char>)
    ensures
        r@ == trim_end_char(v@, c),
{
    let mut i: usize = v.len();
    assert(v@.subrange(0, v@.len() as int) =~= v@);
    while i > 0 && v[i - 1] == c
        invariant
            i <= v@.len(),
            trim_end_char(v@, c) == trim_end_char(v@.subrange(0, i as int), c),
        decreases i,
    {
        assert(v@.subrange(0, i as int).drop_last() =~= v@.subrange(0, i - 1));
        i = i - 1;
    }
    slice_chars(v, 0, i)
}

/// `trim_matches(c)`: the character removed from both ends.
pub open spec fn trim_char(s: Seq<char>, c: char) -> Seq<char> {
    trim_end_char(trim_start_char(s, c), c)
}

pub fn trim_char_chars(v: &[char], c: char) -> (r: Vec<char>)
    ensures
        r@ == trim_char(v@, c),
{
    let a = trim_start_char_chars(v, c);
    trim_end_char_chars(&a, c)
}

/// `trim_end_matches(p)` for a non-empty text pattern: `p` removed from the end
/// as long as the text ends with it.
pub open spec fn trim_end_str(s: Seq<char>, p: Seq<char>) -> Seq<char>
    decreases s.len(),
{
    if p.len() > 0 && ends_with(s, p) {
        trim_end_str(s.subrange(0, s.len() - p.len()), p)
    } else {
        s
    }
}

pub fn trim_end_str_chars(v: &[char], p: &str) -> (r: Vec<char>)
    ensures
        r@ == trim_end_str(v@, p@),
{
    let pv = chars_of(p);
    let mut cur: Vec<char> = slice_chars(v, 0, v.len());
    assert(v@.subrange(0, v@.len() as int) =~= v@);
    while pv.len() > 0 && ends_with_chars(&cur, &pv)
        invariant
            pv@ == p@,
            trim_end_str(v@, p@) == trim_end_str(cur@, p@),
        decreases cur@.len(),
    {
        let n = cur.len() - pv.len();
        cur = slice_chars(&cur, 0, n);
    }
    cur
}

/// `strip_prefix(p)`: the rest after `p`, when the text starts with `p`.
pub open spec fn strip_prefix(s: Seq<char>, p: Seq<char>) -> Option<Seq<char>> {
    if starts_with(s, p) {
        Some(s.subrange(p.len() as int, s.len() as int))
    } else {
        None
    }
}

/// `strip_suffix(p)`: the text before `p`, when the text ends with `p`.
pub open spec fn strip_suffix(s: Seq<char>, p: Seq<char>) -> Option<Seq<char>> {
    if ends_with(s, p) {
        Some(s.subrange(0, s.len() - p.len()))
    } else {
        None
    }
}

pub fn strip_prefix_chars(v: &[char], p: &str) -> (r: Option<Vec<char>>)
    ensures
        match r {
            Some(x) => strip_prefix(v@, p@) == Some(x@),
            None => strip_prefix(v@, p@) is None,
        },
{
    let pv = chars_of(p);
    if starts_with_chars(v, &pv) {
        Some(slice_chars(v, pv.len(), v.len()))
    } else {
        None
    }
}

pub fn strip_suffix_chars(v: &[char], p: &str) -> (r: Option<Vec<char>>)
    ensures
        match r {
            Some(x) => strip_suffix(v@, p@) == Some(x@),
            None => strip_suffix(v@, p@) is None,
        },
{
    let pv = chars_of(p);
    if ends_with_chars(v, &pv) {
        Some(slice_chars(v, 0, v.len() - pv.len()))
    } else {
        None
    }
}

/// The pieces that are not empty, in order.
pub open spec fn nonempty(parts: Seq<Seq<char>>) -> Seq<Seq<char>>
    decreases parts.len(),
{
    if parts.len() == 0 {
        parts
    } else if parts.last().len() == 0 {
        nonempty(parts.drop_last())
    } else {
        nonempty(parts.drop_last()).push(parts.last())
    }
}

pub fn nonempty_vecs(parts: &Vec<Vec<char>>) -> (r: Vec<Vec<char>>)
    ensures
        views(r@) == nonempty(views(parts@)),
{
    let mut r: Vec<Vec<char>> = Vec::new();
    let mut i: usize = 0;
    while i < parts.len()
        invariant
            i <= parts@.len(),
            views(r@) == nonempty(views(parts@).take(i as int)),
        decreases parts@.len() - i,
    {
        let ghost pv = views(parts@);
        assert(pv.take(i + 1).drop_last() =~= pv.take(i as int));
        assert(pv.take(i + 1).last() == parts@[i as int]@);
        if parts[i].len() > 0 {
            let ghost before = r@;
            r.push(parts[i].clone());
            assert(views(r@) =~= views(before).push(parts@[i as int]@));
        }
        i = i + 1;
    }
    assert(views(parts@).take(parts@.len() as int) =~= views(parts@));
    r
}

/// Strings with the given characters, one per piece.
pub fn strings_of(parts: &Vec<Vec<char>>) -> (r: Vec<String>)
    ensures
        string_views(r@) == views(parts@),
{
    let mut r: Vec<String> = Vec::new();
    let mut i: usize = 0;
    while i < parts.len()
        invariant
            i <= parts@.len(),
            string_views(r@) == views(parts@).take(i as int),
        decreases parts@.len() - i,
    {
        let ghost before = r@;
        let st = string_of(&parts[i]);
        r.push(st);
        assert(string_views(r@) =~= string_views(before).push(st@));
        assert(views(parts@).take(i + 1) =~= views(parts@).take(i as int).push(parts@[i as int]@));
        i = i + 1;
    }
    assert(views(parts@).take(parts@.len() as int) =~= views(parts@));
    r
}

/// `str::split_whitespace`: the non-empty pieces between white space.
pub open spec fn split_ws_all(s: Seq<char>) -> Seq<Seq<char>>
    decreases s.len(),
{
    if s.len() == 0 {
        seq![Seq::<char>::empty()]
    } else {
        let prev = split_ws_all(s.drop_last());
        if is_ws(s.last()) {
            prev.push(Seq::<char>::empty())
        } else {
            prev.update(prev.len() - 1, prev.last().push(s.last()))
        }
    }
}

pub proof fn lemma_split_ws_all_nonempty(s: Seq<char>)
    ensures
        split_ws_all(s).len() >= 1,
    decreases s.len(),
{
    if s.len() > 0 {
        lemma_split_ws_all_nonempty(s.drop_last());
    }
}

pub open spec fn split_whitespace(s: Seq<char>) -> Seq<Seq<char>> {
    nonempty(split_ws_all(s))
}

pub fn split_whitespace_chars(v: &[char]) -> (r: Vec<Vec<char>>)
    ensures
        views(r@) == split_whitespace(v@),
{
    let mut parts: Vec<Vec<char>> = Vec::new();
    let mut cur: Vec<char> = Vec::new();
    let mut i: usize = 0;
    proof {
        assert(v@.take(0) =~= Seq::<char>::empty());
        assert(views(parts@).push(cur@) =~= seq![Seq::<char>::empty()]);
    }
    while i < v.len()
        invariant
            i <= v@.len(),
            views(parts@).push(cur@) == split_ws_all(v@.take(i as int)),
        decreases v@.len() - i,
    {
        let c = v[i];
        let ghost prev = split_ws_all(v@.take(i as int));
        let ghost old_parts = parts@;
        let ghost old_cur = cur@;
        proof {
            assert(v@.take(i + 1).drop_last() =~= v@.take(i as int));
            assert(v@.take(i + 1).last() == c);
        }
        if char_is_ws(c) {
            let done = cur;
            cur = Vec::new();
            parts.push(done);
            proof {
                assert(views(parts@) =~= views(old_parts).push(old_cur));
                assert(views(parts@).push(cur@) =~= prev.push(Seq::<char>::empty()));
            }
        } else {
            cur.push(c);
            proof {
                assert(prev.last() == old_cur);
                assert(views(parts@).push(cur@) =~= prev.update(prev.len() - 1, prev.last().push(c)));
            }
        }
        i = i + 1;
    }
    assert(v@.take(v@.len() as int) =~= v@);
    let ghost before = parts@;
    parts.push(cur);
    assert(views(parts@) =~= views(before).push(cur@));
    nonempty_vecs(&parts)
}

/// Some character is an ASCII digit.
pub open spec fn any_digit(s: Seq<char>) -> bool {
    exists|i: int| 0 <= i < s.len() && is_digit(#[trigger] s[i])
}

/// Some character is an ASCII letter.
pub open spec fn any_alpha(s: Seq<char>) -> bool {
    exists|i: int| 0 <= i < s.len() && is_alpha(#[trigger] s[i])
}

/// Some character is an ASCII upper-case letter.
pub open spec fn any_upper(s: Seq<char>) -> bool {
    exists|i: int| 0 <= i < s.len() && is_upper(#[trigger] s[i])
}

pub fn any_digit_chars(v: &[char]) -> (r: bool)
    ensures
        r == any_digit(v@),
{
    let mut i: usize = 0;
    while i < v.len()
        invariant
            i <= v@.len(),
            forall|k: int| 0 <= k < i ==> !is_digit(#[trigger] v@[k]),
        decreases v@.len() - i,
    {
        if char_is_digit(v[i]) {
            return true;
        }
        i = i + 1;
    }
    false
}

pub fn any_alpha_chars(v: &[char]) -> (r: bool)
    ensures
        r == any_alpha(v@),
{
    let mut i: usize = 0;
    while i < v.len()
        invariant
            i <= v@.len(),
            forall|k: int| 0 <= k < i ==> !is_alpha(#[trigger] v@[k]),
        decreases v@.len() - i,
    {
        if char_is_upper(v[i]) || char_is_lower(v[i]) {
            return true;
        }
        i = i + 1;
    }
    false
}

pub fn any_upper_chars(v: &[char]) -> (r: bool)
    ensures
        r == any_upper(v@),
{
    let mut i: usize = 0;
    while i < v.len()
        invariant
            i <= v@.len(),
            forall|k: int| 0 <= k < i ==> !is_upper(#[trigger] v@[k]),
        decreases v@.len() - i,
    {
        if char_is_upper(v[i]) {
            return true;
        }
        i = i + 1;
    }
    false
}

/// Number of ASCII digits.
pub open spec fn count_digits(s: Seq<char>) -> nat
    decreases s.len(),
{
    if s.len() == 0 {
        0
    } else {
        count_digits(s.drop_last()) + (if is_digit(s.last()) {
            1nat
        } else {
            0nat
        })
    }
}

pub fn count_digits_chars(v: &[char]) -> (r: usize)
    ensures
        r == count_digits(v@),
{
    let mut n: usize = 0;
    let mut i: usize = 0;
    while i < v.len()
        invariant
            i <= v@.len(),
            n == count_digits(v@.take(i as int)),
            n <= i,
        decreases v@.len() - i,
    {
        assert(v@.take(i + 1).drop_last() =~= v@.take(i as int));
        if char_is_digit(v[i]) {
            n = n + 1;
        }
        i = i + 1;
    }
    assert(v@.take(v@.len() as int) =~= v@);
    n
}

/// `str::split` on a non-empty text pattern.
pub open spec fn split_str(s: Seq<char>, p: Seq<char>) -> Seq<Seq<char>>
    decreases s.len(),
{
    if p.len() == 0 {
        seq![s]
    } else {
        match find(s, p) {
            None => seq![s],
            Some(i) => {
                if 0 <= i && i + p.len() <= s.len() && p.len() > 0 {
                    seq![s.subrange(0, i)] + split_str(s.subrange(i + p.len(), s.len() as int), p)
                } else {
                    seq![s]
                }
            },
        }
    }
}

pub proof fn lemma_find_from_bounds(s: Seq<char>, p: Seq<char>, i: int)
    ensures
        match find_from(s, p, i) {
            Some(j) => i <= j && matches_at(s, j, p),
            None => true,
        },
    decreases s.len() + 1 - i,
{
    if !(i < 0 || i + p.len() > s.len()) && !matches_at(s, i, p) {
        lemma_find_from_bounds(s, p, i + 1);
    }
}

/// The text before the first occurrence of `p` (all of it when `p` does not occur).
pub open spec fn before_str(s: Seq<char>, p: Seq<char>) -> Seq<char> {
    match find(s, p) {
        Some(i) => s.subrange(0, i),
        None => s,
    }
}

pub fn before_str_chars(v: &[char], p: &str) -> (r: Vec<char>)
    ensures
        r@ == before_str(v@, p@),
{
    let pv = chars_of(p);
    proof {
        lemma_find_from_bounds(v@, p@, 0);
    }
    match find_chars(v, &pv) {
        Some(i) => slice_chars(v, 0, i),
        None => slice_chars(v, 0, v.len()),
    }
}

pub fn split_str_chars(v: &[char], p: &str) -> (r: Vec<Vec<char>>)
    ensures
        views(r@) == split_str(v@, p@),
{
    let pv = chars_of(p);
    let mut parts: Vec<Vec<char>> = Vec::new();
    if pv.len() == 0 {
        parts.push(slice_chars(v, 0, v.len()));
        assert(v@.subrange(0, v@.len() as int) =~= v@);
        assert(views(parts@) =~= seq![v@]);
        return parts;
    }
    let mut start: usize = 0;
    assert(v@.subrange(0, v@.len() as int) =~= v@);
    assert(views(parts@) =~= Seq::<Seq<char>>::empty());
    loop
        invariant
            start <= v@.len(),
            pv@ == p@,
            pv@.len() > 0,
            views(parts@) + split_str(v@.subrange(start as int, v@.len() as int), p@) == split_str(v@, p@),
        decreases v@.len() - start,
    {
        let rest = slice_chars(v, start, v.len());
        proof {
            lemma_find_from_bounds(rest@, p@, 0);
        }
        match find_chars(&rest, &pv) {
            None => {
                let ghost before = parts@;
                parts.push(rest);
                assert(views(parts@) =~= views(before) + split_str(v@.subrange(start as int, v@.len() as int), p@));
                return parts;
            },
            Some(i) => {
                let piece = slice_chars(&rest, 0, i);
                let ghost before = parts@;
                parts.push(piece);
                let next = start + i + pv.len();
                proof {
                    assert(rest@.subrange(i + pv@.len(), rest@.len() as int) =~= v@.subrange(next as int, v@.len() as int));
                    assert(split_str(rest@, p@) =~= seq![piece@] + split_str(v@.subrange(next as int, v@.len() as int), p@));
                    assert(views(parts@) =~= views(before).push(piece@));
                    assert(views(parts@) + split_str(v@.subrange(next as int, v@.len() as int), p@) =~= views(before) + split_str(rest@, p@));
                }
                start = next;
            },
        }
    }
}

pub proof fn lemma_split_str_nonempty(s: Seq<char>, p: Seq<char>)
    ensures
        split_str(s, p).len() >= 1,
    decreases s.len(),
{
    if p.len() > 0 {
        match find(s, p) {
            Some(i) => {
                if 0 <= i && i + p.len() <= s.len() {
                    lemma_split_str_nonempty(s.subrange(i + p.len(), s.len() as int), p);
                }
            },
            None => {},
        }
    }
}

// ---------------------------------------------------------------------------
// Lexicographic order
// ---------------------------------------------------------------------------

/// The order of `String`'s `Ord`: lexicographic by code point (the same as by
/// UTF-8 bytes).
pub open spec fn seq_lt(a: Seq<char>, b: Seq<char>) -> bool
    decreases a.len(),
{
    if b.len() == 0 {
        false
    } else if a.len() == 0 {
        true
    } else if a[0] != b[0] {
        a[0] < b[0]
    } else {
        seq_lt(a.drop_first(), b.drop_first())
    }
}

pub proof fn lemma_seq_lt_irreflexive(a: Seq<char>)
    ensures
        !seq_lt(a, a),
    decreases a.len(),
{
    if a.len() > 0 {
        lemma_seq_lt_irreflexive(a.drop_first());
    }
}

pub proof fn lemma_seq_lt_asymmetric(a: Seq<char>, b: Seq<char>)
    ensures
        !(seq_lt(a, b) && seq_lt(b, a)),
    decreases a.len(),
{
    if a.len() > 0 && b.len() > 0 && a[0] == b[0] {
        lemma_seq_lt_asymmetric(a.drop_first(), b.drop_first());
    }
}

pub proof fn lemma_seq_lt_total(a: Seq<char>, b: Seq<char>)
    ensures
        a != b ==> seq_lt(a, b) || seq_lt(b, a),
    decreases a.len(),
{
    if a.len() > 0 && b.len() > 0 {
        if a[0] == b[0] {
            lemma_seq_lt_total(a.drop_first(), b.drop_first());
            if a.drop_first() == b.drop_first() {
                assert(a =~= seq![a[0]] + a.drop_first());
                assert(b =~= seq![b[0]] + b.drop_first());
            }
        }
    } else if a.len() == 0 && b.len() == 0 {
        assert(a =~= b);
    }
}

pub proof fn lemma_seq_lt_transitive(a: Seq<char>, b: Seq<char>, c: Seq<char>)
    requires
        seq_lt(a, b),
        seq_lt(b, c),
    ensures
        seq_lt(a, c),
    decreases a.len(),
{
    if a.len() > 0 && b.len() > 0 && c.len() > 0 && a[0] == b[0] && b[0] == c[0] {
        lemma_seq_lt_transitive(a.drop_first(), b.drop_first(), c.drop_first());
    }
}

/// `a < b` on strings.
pub fn str_lt(a: &str, b: &str) -> (r: bool)
    ensures
        r == seq_lt(a@, b@),
{
    let av = chars_of(a);
    let bv = chars_of(b);
    let mut i: usize = 0;
    assert(a@.skip(0) =~= a@);
    assert(b@.skip(0) =~= b@);
    while i < av.len() && i < bv.len()
        invariant
            i <= av@.len(),
            i <= bv@.len(),
            av@ == a@,
            bv@ == b@,
            seq_lt(a@, b@) == seq_lt(a@.skip(i as int), b@.skip(i as int)),
        decreases av@.len() - i,
    {
        let x = av[i];
        let y = bv[i];
        assert(a@.skip(i as int)[0] == x);
        assert(b@.skip(i as int)[0] == y);
        if x != y {
            return x < y;
        }
        assert(a@.skip(i as int).drop_first() =~= a@.skip(i + 1));
        assert(b@.skip(i as int).drop_first() =~= b@.skip(i + 1));
        i = i + 1;
    }
    i < bv.len()
}

// ---------------------------------------------------------------------------
// Numbers as text
// ---------------------------------------------------------------------------

pub open spec fn digit_char(d: nat) -> char {
    if d == 0 { '0' } else if d == 1 { '1' } else if d == 2 { '2' } else if d == 3 { '3' } else if d
        == 4 { '4' } else if d == 5 { '5' } else if d == 6 { '6' } else if d == 7 { '7' } else if d
        == 8 { '8' } else { '9' }
}

/// The decimal digits of `n` (what `to_string` gives for an unsigned integer).
pub open spec fn decimal(n: nat) -> Seq<char>
    decreases n,
{
    if n < 10 {
        seq![digit_char(n)]
    } else {
        decimal(n / 10).push(digit_char(n % 10))
    }
}

fn digit_exec(d: u64) -> (r: char)
    requires
        d < 10,
    ensures
        r == digit_char(d as nat),
{
    if d == 0 { '0' } else if d == 1 { '1' } else if d == 2 { '2' } else if d == 3 { '3' } else if d
        == 4 { '4' } else if d == 5 { '5' } else if d == 6 { '6' } else if d == 7 { '7' } else if d
        == 8 { '8' } else { '9' }
}

fn decimal_chars(n: u64) -> (r: Vec<char>)
    ensures
        r@ == decimal(n as nat),
    decreases n,
{
    if n < 10 {
        let mut r: Vec<char> = Vec::new();
        r.push(digit_exec(n));
        assert(r@ =~= seq![digit_char(n as nat)]);
        r
    } else {
        let mut r = decimal_chars(n / 10);
        r.push(digit_exec(n % 10));
        r
    }
}

/// `n.to_string()`.
pub fn decimal_string(n: u64) -> (r: String)
    ensures
        r@ == decimal(n as nat),
{
    let v = decimal_chars(n);
    string_of(&v)
}

/// `b.to_string()`.
pub open spec fn bool_text(b: bool) -> Seq<char> {
    if b {
        "true"@
    } else {
        "false"@
    }
}

pub fn bool_string(b: bool) -> (r: String)
    ensures
        r@ == bool_text(b),
{
    if b {
        "true".to_string()
    } else {
        "false".to_string()
    }
}

/// `str::parse::<u16>`: an optional `+`, then at least one ASCII digit, with
/// a value that fits.
pub open spec fn digits_value(s: Seq<char>) -> nat
    decreases s.len(),
{
    if s.len() == 0 {
        0
    } else {
        digits_value(s.drop_last()) * 10 + ((s.last() as u32) - ('0' as u32)) as nat
    }
}

pub open spec fn all_digits(s: Seq<char>) -> bool {
    forall|i: int| 0 <= i < s.len() ==> is_digit(#[trigger] s[i])
}

pub open spec fn unsigned_digits(s: Seq<char>) -> Seq<char> {
    if s.len() > 0 && s[0] == '+' {
        s.drop_first()
    } else {
        s
    }
}

pub open spec fn parse_u16_of(s: Seq<char>) -> Option<u16> {
    let d = unsigned_digits(s);
    if d.len() > 0 && all_digits(d) && digits_value(d) <= 65535 {
        Some(digits_value(d) as u16)
    } else {
        None
    }
}

proof fn lemma_digits_value_prefix(s: Seq<char>, i: int)
    requires
        0 <= i <= s.len(),
        all_digits(s),
    ensures
        digits_value(s.take(i)) <= digits_value(s),
    decreases s.len() - i,
{
    if i < s.len() {
        lemma_digits_value_prefix(s, i + 1);
        assert(s.take(i + 1).drop_last() =~= s.take(i));
    } else {
        assert(s.take(i) =~= s);
    }
}

pub fn parse_u16(text: &[char]) -> (r: Option<u16>)
    ensures
        r == parse_u16_of(text@),
{
    let start: usize = if text.len() > 0 && text[0] == '+' {
        1
    } else {
        0
    };
    let d = slice_chars(text, start, text.len());
    assert(d@ =~= unsigned_digits(text@));
    if d.len() == 0 {
        return None;
    }
    let mut value: u32 = 0;
    let mut i: usize = 0;
    while i < d.len()
        invariant
            i <= d@.len(),
            d@ == unsigned_digits(text@),
            d@.len() > 0,
            all_digits(d@.take(i as int)),
            value == digits_value(d@.take(i as int)),
            value <= 65535,
        decreases d@.len() - i,
    {
        let c = d[i];
        if !('0' <= c && c <= '9') {
            assert(!is_digit(d@[i as int]));
            return None;
        }
        assert(d@.take(i + 1).drop_last() =~= d@.take(i as int));
        let next: u32 = value * 10 + ((c as u32) - ('0' as u32));
        assert(all_digits(d@.take(i + 1)));
        if next > 65535 {
            proof {
                if all_digits(d@) {
                    lemma_digits_value_prefix(d@, i + 1);
                }
            }
            return None;
        }
        value = next;
        i = i + 1;
    }
    assert(d@.take(d@.len() as int) =~= d@);
    Some(value as u16)
}

} // verus!
