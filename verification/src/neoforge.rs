//! NeoForge versions: which belong to a Minecraft version, how they order,
//! and where their files are.
use vstd::prelude::*;
use vstd::string::StringExecFns;
use crate::text::{all_digits, chars_of, contains, contains_str, digits_value, ends_with, ends_with_str, eq_str, is_digit, lines, lines_chars, lower, nonempty, nonempty_vecs, opt_view, split_by, split_chars, starts_with, starts_with_chars, starts_with_str, string_of, string_views, strings_of, strip_prefix, strip_prefix_chars, strip_suffix, strip_suffix_chars, to_lower, trim, trim_chars, trimmed, views};

verus! {

/// NeoForge's numbering for a Minecraft version: `1.21.1` gives `21.1`,
/// `1.21` gives `21.0`; other forms have none.
pub open spec fn neoforge_prefix(minecraft_version: Seq<char>) -> Option<Seq<char>> {
    let parts = split_by(trim(minecraft_version), seq!['.']);
    if parts.len() == 3 && parts[0] == "1"@ {
        Some(parts[1] + "."@ + parts[2])
    } else if parts.len() == 2 && parts[0] == "1"@ {
        Some(parts[1] + ".0"@)
    } else {
        None
    }
}

pub fn neoforge_prefix_for_mc(minecraft_version: &str) -> (r: Option<String>)
    ensures
        opt_view(r) == neoforge_prefix(minecraft_version@),
{
    let t = trimmed(minecraft_version);
    let mut dot: Vec<char> = Vec::new();
    dot.push('.');
    assert(dot@ =~= seq!['.']);
    let parts = split_chars(&t, &dot);
    if parts.len() == 3 && eq_str(&parts[0], "1") {
        let mut out = string_of(&parts[1]);
        out.append(".");
        out.append(string_of(&parts[2]).as_str());
        Some(out)
    } else if parts.len() == 2 && eq_str(&parts[0], "1") {
        let mut out = string_of(&parts[1]);
        out.append(".0");
        Some(out)
    } else {
        None
    }
}

// ---------------------------------------------------------------------------
// Version numbers
// ---------------------------------------------------------------------------

/// The ASCII digits a text starts with.
pub open spec fn leading_digits(s: Seq<char>) -> Seq<char>
    decreases s.len(),
{
    if s.len() > 0 && is_digit(s[0]) {
        seq![s[0]] + leading_digits(s.drop_first())
    } else {
        Seq::<char>::empty()
    }
}

/// The number a piece of a version starts with, when it has one that fits
/// in `u32`.
pub open spec fn piece_number(piece: Seq<char>) -> Option<u32> {
    let d = leading_digits(piece);
    if d.len() > 0 && digits_value(d) <= 0xffff_ffff {
        Some(digits_value(d) as u32)
    } else {
        None
    }
}

pub open spec fn numbers_of_pieces(pieces: Seq<Seq<char>>) -> Seq<u32>
    decreases pieces.len(),
{
    if pieces.len() == 0 {
        Seq::<u32>::empty()
    } else {
        let prev = numbers_of_pieces(pieces.drop_last());
        match piece_number(pieces.last()) {
            Some(n) => prev.push(n),
            None => prev,
        }
    }
}

/// The numbers of a version, split at `.` and `-`; pieces without a leading
/// number are skipped.
pub open spec fn version_numbers(v: Seq<char>) -> Seq<u32> {
    numbers_of_pieces(split_by(v, seq!['.', '-']))
}

proof fn lemma_leading_digits(s: Seq<char>, i: int)
    requires
        0 <= i <= s.len(),
        forall|k: int| 0 <= k < i ==> is_digit(#[trigger] s[k]),
        i == s.len() || !is_digit(s[i]),
    ensures
        leading_digits(s) == s.take(i),
    decreases i,
{
    if i > 0 {
        lemma_leading_digits(s.drop_first(), i - 1);
        assert(s.take(i) =~= seq![s[0]] + s.drop_first().take(i - 1));
    } else {
        assert(s.take(0) =~= Seq::<char>::empty());
    }
}

proof fn lemma_digits_value_mono(s: Seq<char>, i: int)
    requires
        0 <= i <= s.len(),
        all_digits(s),
    ensures
        digits_value(s.take(i)) <= digits_value(s),
    decreases s.len() - i,
{
    if i < s.len() {
        lemma_digits_value_mono(s, i + 1);
        assert(s.take(i + 1).drop_last() =~= s.take(i));
    } else {
        assert(s.take(i) =~= s);
    }
}

fn piece_number_exec(piece: &[char]) -> (r: Option<u32>)
    ensures
        r == piece_number(piece@),
{
    let mut i: usize = 0;
    let mut value: u64 = 0;
    let mut fits = true;
    while i < piece.len() && '0' <= piece[i] && piece[i] <= '9'
        invariant
            i <= piece@.len(),
            forall|k: int| 0 <= k < i ==> is_digit(#[trigger] piece@[k]),
            fits ==> value == digits_value(piece@.take(i as int)),
            fits ==> value <= 0xffff_ffff,
            !fits ==> digits_value(piece@.take(i as int)) > 0xffff_ffff,
        decreases piece@.len() - i,
    {
        assert(piece@.take(i + 1).drop_last() =~= piece@.take(i as int));
        proof {
            assert(all_digits(piece@.take(i + 1)));
            lemma_digits_value_mono(piece@.take(i + 1), i as int);
            assert(piece@.take(i + 1).take(i as int) =~= piece@.take(i as int));
        }
        if fits {
            let next = value * 10 + ((piece[i] as u32) - ('0' as u32)) as u64;
            if next > 0xffff_ffff {
                fits = false;
            } else {
                value = next;
            }
        }
        i = i + 1;
    }
    proof {
        lemma_leading_digits(piece@, i as int);
    }
    if i == 0 || !fits {
        return None;
    }
    Some(value as u32)
}

pub fn version_numbers_exec(v: &str) -> (r: Vec<u32>)
    ensures
        r@ == version_numbers(v@),
{
    let cv = chars_of(v);
    let mut seps: Vec<char> = Vec::new();
    seps.push('.');
    seps.push('-');
    assert(seps@ =~= seq!['.', '-']);
    let pieces = split_chars(&cv, &seps);
    let ghost pv = views(pieces@);
    let mut out: Vec<u32> = Vec::new();
    let mut i: usize = 0;
    assert(pv.take(0) =~= Seq::<Seq<char>>::empty());
    while i < pieces.len()
        invariant
            i <= pieces@.len(),
            pv == views(pieces@),
            pv == split_by(v@, seq!['.', '-']),
            out@ == numbers_of_pieces(pv.take(i as int)),
        decreases pieces@.len() - i,
    {
        assert(pv.take(i + 1).drop_last() =~= pv.take(i as int));
        assert(pv.take(i + 1).last() == pieces@[i as int]@);
        match piece_number_exec(&pieces[i]) {
            Some(n) => out.push(n),
            None => {},
        }
        i = i + 1;
    }
    assert(pv.take(pieces@.len() as int) =~= pv);
    out
}

/// Lexicographic comparison of number lists (as `Vec<u32>` orders them):
/// negative, zero or positive.
pub open spec fn numbers_order(a: Seq<u32>, b: Seq<u32>) -> int
    decreases a.len(),
{
    if a.len() == 0 && b.len() == 0 {
        0
    } else if a.len() == 0 {
        -1
    } else if b.len() == 0 {
        1
    } else if a[0] < b[0] {
        -1
    } else if a[0] > b[0] {
        1
    } else {
        numbers_order(a.drop_first(), b.drop_first())
    }
}

pub open spec fn version_order(left: Seq<char>, right: Seq<char>) -> int {
    numbers_order(version_numbers(left), version_numbers(right))
}

fn numbers_order_exec(a: &Vec<u32>, b: &Vec<u32>) -> (r: i8)
    ensures
        r == numbers_order(a@, b@),
{
    let mut i: usize = 0;
    assert(a@.skip(0) =~= a@);
    assert(b@.skip(0) =~= b@);
    while i < a.len() && i < b.len()
        invariant
            i <= a@.len(),
            i <= b@.len(),
            numbers_order(a@, b@) == numbers_order(a@.skip(i as int), b@.skip(i as int)),
        decreases a@.len() - i,
    {
        assert(a@.skip(i as int)[0] == a@[i as int]);
        assert(b@.skip(i as int)[0] == b@[i as int]);
        if a[i] < b[i] {
            return -1;
        }
        if a[i] > b[i] {
            return 1;
        }
        assert(a@.skip(i as int).drop_first() =~= a@.skip(i + 1));
        assert(b@.skip(i as int).drop_first() =~= b@.skip(i + 1));
        i = i + 1;
    }
    if i < a.len() {
        1
    } else if i < b.len() {
        -1
    } else {
        0
    }
}

/// The order of two versions, as a sign.
pub fn version_sign(left: &str, right: &str) -> (r: i8)
    ensures
        r == version_order(left@, right@),
{
    let a = version_numbers_exec(left);
    let b = version_numbers_exec(right);
    numbers_order_exec(&a, &b)
}

pub proof fn lemma_numbers_order_antisym(a: Seq<u32>, b: Seq<u32>)
    ensures
        numbers_order(a, b) == -numbers_order(b, a),
        -1 <= numbers_order(a, b) <= 1,
    decreases a.len(),
{
    if a.len() > 0 && b.len() > 0 && a[0] == b[0] {
        lemma_numbers_order_antisym(a.drop_first(), b.drop_first());
    }
}

pub proof fn lemma_numbers_order_trans(a: Seq<u32>, b: Seq<u32>, c: Seq<u32>)
    requires
        numbers_order(a, b) <= 0,
        numbers_order(b, c) <= 0,
    ensures
        numbers_order(a, c) <= 0,
        numbers_order(a, b) < 0 || numbers_order(b, c) < 0 ==> numbers_order(a, c) < 0,
    decreases a.len(),
{
    if a.len() > 0 && b.len() > 0 && c.len() > 0 && a[0] == b[0] && b[0] == c[0] {
        lemma_numbers_order_trans(a.drop_first(), b.drop_first(), c.drop_first());
    }
}

// ---------------------------------------------------------------------------
// The Maven listing
// ---------------------------------------------------------------------------

/// Reading state: inside `<versions>`, past `</versions>`, and the versions.
pub open spec fn maven_step(st: (bool, bool, Seq<Seq<char>>), line: Seq<char>) -> (bool, bool, Seq<Seq<char>>) {
    let (inside, done, acc) = st;
    let t = trim(line);
    if done {
        st
    } else if t == "<versions>"@ {
        (true, false, acc)
    } else if t == "</versions>"@ {
        (inside, true, acc)
    } else if !inside {
        st
    } else {
        match strip_prefix(t, "<version>"@) {
            Some(rest) => match strip_suffix(rest, "</version>"@) {
                Some(inner) => (inside, false, acc.push(trim(inner))),
                None => st,
            },
            None => st,
        }
    }
}

pub open spec fn maven_fold(ls: Seq<Seq<char>>) -> (bool, bool, Seq<Seq<char>>)
    decreases ls.len(),
{
    if ls.len() == 0 {
        (false, false, Seq::<Seq<char>>::empty())
    } else {
        maven_step(maven_fold(ls.drop_last()), ls.last())
    }
}

/// The `<version>` entries of the `<versions>` block of Maven metadata.
pub open spec fn maven_versions(xml: Seq<char>) -> Seq<Seq<char>> {
    maven_fold(lines(xml)).2
}

pub fn parse_maven_versions(xml: &str) -> (r: Vec<String>)
    ensures
        string_views(r@) == maven_versions(xml@),
{
    let v = chars_of(xml);
    let ls = lines_chars(&v);
    let ghost lv = views(ls@);
    let mut versions: Vec<String> = Vec::new();
    let mut inside = false;
    let mut done = false;
    let mut k: usize = 0;
    assert(lv.take(0) =~= Seq::<Seq<char>>::empty());
    while k < ls.len()
        invariant
            k <= ls@.len(),
            lv == views(ls@),
            lv == lines(xml@),
            (inside, done, string_views(versions@)) == maven_fold(lv.take(k as int)),
        decreases ls@.len() - k,
    {
        assert(lv.take(k + 1).drop_last() =~= lv.take(k as int));
        assert(lv.take(k + 1).last() == ls@[k as int]@);
        if !done {
            let t = trim_chars(&ls[k]);
            if eq_str(&t, "<versions>") {
                inside = true;
            } else if eq_str(&t, "</versions>") {
                done = true;
            } else if inside {
                match strip_prefix_chars(&t, "<version>") {
                    Some(rest) => match strip_suffix_chars(&rest, "</version>") {
                        Some(inner) => {
                            let iv = trim_chars(&inner);
                            let ghost before = versions@;
                            versions.push(string_of(&iv));
                            assert(string_views(versions@) =~= string_views(before).push(iv@));
                        },
                        None => {},
                    },
                    None => {},
                }
            }
        }
        k = k + 1;
    }
    assert(lv.take(ls@.len() as int) =~= lv);
    versions
}

/// Stable releases for a Minecraft version: those under its prefix, without
/// beta, alpha or snapshot builds; none when the version has no prefix.
pub open spec fn versions_for_mc(all: Seq<Seq<char>>, minecraft_version: Seq<char>) -> Seq<Seq<char>> {
    match neoforge_prefix(minecraft_version) {
        None => Seq::<Seq<char>>::empty(),
        Some(prefix) => all.filter(
            |v: Seq<char>|
                starts_with(v, prefix + "."@) && !contains(v, "beta"@) && !contains(v, "alpha"@)
                    && !contains(v, "snapshot"@),
        ),
    }
}

pub fn filter_versions_for_mc(all: &[String], minecraft_version: &str) -> (r: Vec<String>)
    ensures
        string_views(r@) == versions_for_mc(string_views(all@), minecraft_version@),
{
    let prefix = match neoforge_prefix_for_mc(minecraft_version) {
        Some(p) => p,
        None => {
            return Vec::new();
        },
    };
    let mut needle = prefix;
    needle.append(".");
    let nv = chars_of(needle.as_str());
    let ghost av = string_views(all@);
    let mut out: Vec<String> = Vec::new();
    let mut i: usize = 0;
    assert(av.take(0) =~= Seq::<Seq<char>>::empty());
    while i < all.len()
        invariant
            i <= all@.len(),
            av == string_views(all@),
            neoforge_prefix(minecraft_version@) is Some,
            nv@ == neoforge_prefix(minecraft_version@)->0 + "."@,
            string_views(out@) == versions_for_mc(av.take(i as int), minecraft_version@),
        decreases all@.len() - i,
    {
        proof {
            assert(av.take(i + 1).drop_last() =~= av.take(i as int));
            assert(av.take(i + 1).last() == all@[i as int]@);
            reveal(Seq::filter);
        }
        let v = chars_of(all[i].as_str());
        let ghost before = out@;
        if starts_with_chars(&v, &nv) && !contains_str(&v, "beta") && !contains_str(&v, "alpha")
            && !contains_str(&v, "snapshot") {
            out.push(all[i].clone());
            assert(string_views(out@) =~= string_views(before).push(all@[i as int]@));
        }
        i = i + 1;
    }
    assert(av.take(all@.len() as int) =~= av);
    out
}

/// The newest version (the last of equally new ones), as `max_by` picks it.
pub open spec fn is_latest(versions: Seq<Seq<char>>, i: int) -> bool {
    &&& 0 <= i < versions.len()
    &&& forall|j: int| 0 <= j < versions.len() ==> version_order(#[trigger] versions[j], versions[i]) <= 0
    &&& forall|j: int| i < j < versions.len() ==> version_order(#[trigger] versions[j], versions[i]) < 0
}

pub fn latest_version(versions: &[String]) -> (r: Option<String>)
    ensures
        versions@.len() == 0 <==> r is None,
        r matches Some(v) ==> exists|i: int|
            is_latest(string_views(versions@), i) && v@ == #[trigger] string_views(versions@)[i],
{
    if versions.len() == 0 {
        return None;
    }
    let ghost vs = string_views(versions@);
    let mut best: usize = 0;
    let mut i: usize = 1;
    proof {
        lemma_numbers_order_antisym(version_numbers(vs[0]), version_numbers(vs[0]));
    }
    while i < versions.len()
        invariant
            1 <= i <= versions@.len(),
            vs == string_views(versions@),
            best < i,
            forall|j: int| 0 <= j < i ==> version_order(#[trigger] vs[j], vs[best as int]) <= 0,
            forall|j: int| best < j < i ==> version_order(#[trigger] vs[j], vs[best as int]) < 0,
        decreases versions@.len() - i,
    {
        let s = version_sign(versions[best].as_str(), versions[i].as_str());
        proof {
            lemma_numbers_order_antisym(version_numbers(vs[best as int]), version_numbers(vs[i as int]));
        }
        if s <= 0 {
            proof {
                let nb = version_numbers(vs[best as int]);
                let ni = version_numbers(vs[i as int]);
                assert forall|j: int| 0 <= j < i + 1 implies version_order(#[trigger] vs[j], vs[i as int]) <= 0 by {
                    if j < i {
                        lemma_numbers_order_trans(version_numbers(vs[j]), nb, ni);
                    } else {
                        lemma_numbers_order_antisym(ni, ni);
                    }
                }
            }
            best = i;
        }
        i = i + 1;
    }
    Some(versions[best].clone())
}

pub open spec fn maven_base() -> Seq<char> {
    "https://maven.neoforged.net/releases/net/neoforged/neoforge/"@
}

pub fn installer_url(version: &str) -> (r: String)
    ensures
        r@ == maven_base() + version@ + "/neoforge-"@ + version@ + "-installer.jar"@,
{
    let mut out = "https://maven.neoforged.net/releases/net/neoforged/neoforge/".to_string();
    out.append(version);
    out.append("/neoforge-");
    out.append(version);
    out.append("-installer.jar");
    out
}

pub fn artifact_url(version: &str, artifact: &str) -> (r: String)
    ensures
        r@ == maven_base() + version@ + "/neoforge-"@ + version@ + "-"@ + artifact@ + ".jar"@,
{
    let mut out = "https://maven.neoforged.net/releases/net/neoforged/neoforge/".to_string();
    out.append(version);
    out.append("/neoforge-");
    out.append(version);
    out.append("-");
    out.append(artifact);
    out.append(".jar");
    out
}

pub fn no_versions_message(minecraft_version: &str) -> (r: String)
    ensures
        r@ == "Не найдены версии NeoForge для Minecraft "@ + minecraft_version@ + "."@,
{
    let mut out = "Не найдены версии NeoForge для Minecraft ".to_string();
    out.append(minecraft_version);
    out.append(".");
    out
}

/// A NeoForge installer jar left behind by an update.
pub open spec fn is_installer_name(name: Seq<char>) -> bool {
    let l = lower(trim(name));
    starts_with(l, "neoforge-"@) && ends_with(l, "-installer.jar"@)
}

pub fn is_installer_file_name(name: &str) -> (r: bool)
    ensures
        r == is_installer_name(name@),
{
    let t = trimmed(name);
    let l = to_lower(&t);
    starts_with_str(&l, "neoforge-") && ends_with_str(&l, "-installer.jar")
}

/// The file names a remote clean-up printed, one per line.
pub fn printed_names(stdout: &str) -> (r: Vec<String>)
    ensures
        string_views(r@) == nonempty(lines(stdout@).map_values(|l: Seq<char>| trim(l))),
{
    let v = chars_of(stdout);
    let ls = lines_chars(&v);
    let mut trimmed_lines: Vec<Vec<char>> = Vec::new();
    let mut i: usize = 0;
    while i < ls.len()
        invariant
            i <= ls@.len(),
            views(ls@) == lines(stdout@),
            views(trimmed_lines@) == views(ls@).take(i as int).map_values(|l: Seq<char>| trim(l)),
        decreases ls@.len() - i,
    {
        let ghost before = trimmed_lines@;
        trimmed_lines.push(trim_chars(&ls[i]));
        assert(views(trimmed_lines@) =~= views(before).push(trim(ls@[i as int]@)));
        assert(views(ls@).take(i + 1).map_values(|l: Seq<char>| trim(l)) =~= views(ls@).take(
            i as int,
        ).map_values(|l: Seq<char>| trim(l)).push(trim(ls@[i as int]@)));
        i = i + 1;
    }
    assert(views(ls@).take(ls@.len() as int) =~= views(ls@));
    let kept = nonempty_vecs(&trimmed_lines);
    strings_of(&kept)
}

/// How two versions order, by their numbers.
pub fn compare_versions(left: &str, right: &str) -> (r: std::cmp::Ordering)
    ensures
        r == std::cmp::Ordering::Less <==> version_order(left@, right@) < 0,
        r == std::cmp::Ordering::Equal <==> version_order(left@, right@) == 0,
        r == std::cmp::Ordering::Greater <==> version_order(left@, right@) > 0,
{
    let s = version_sign(left, right);
    if s < 0 {
        std::cmp::Ordering::Less
    } else if s == 0 {
        std::cmp::Ordering::Equal
    } else {
        std::cmp::Ordering::Greater
    }
}

/// `p` lists the indices `0..n`, each once.
pub open spec fn is_permutation(p: Seq<int>, n: int) -> bool {
    &&& p.len() == n
    &&& forall|k: int| 0 <= k < n ==> 0 <= #[trigger] p[k] < n
    &&& forall|a: int, b: int| 0 <= a < b < n ==> #[trigger] p[a] != #[trigger] p[b]
}

/// `r` is `vs` newest first; equally new versions keep their order.
pub open spec fn newest_first(vs: Seq<Seq<char>>, r: Seq<Seq<char>>) -> bool {
    exists|p: Seq<int>|
        {
            &&& is_permutation(p, vs.len() as int)
            &&& r.len() == vs.len()
            &&& forall|k: int| 0 <= k < r.len() ==> #[trigger] r[k] == vs[p[k]]
            &&& forall|a: int, b: int|
                0 <= a < b < r.len() ==> version_order(#[trigger] r[a], #[trigger] r[b]) >= 0
            &&& forall|a: int, b: int|
                0 <= a < b < r.len() && version_order(#[trigger] r[a], #[trigger] r[b]) == 0 ==> p[a]
                    < p[b]
        }
}

pub fn versions_newest_first(versions: &[String]) -> (r: Vec<String>)
    ensures
        newest_first(string_views(versions@), string_views(r@)),
{
    let ghost vs = string_views(versions@);
    let mut out: Vec<String> = Vec::new();
    let ghost mut p: Seq<int> = Seq::empty();
    let mut i: usize = 0;
    while i < versions.len()
        invariant
            i <= versions@.len(),
            vs == string_views(versions@),
            p.len() == out@.len(),
            out@.len() == i,
            forall|k: int| 0 <= k < i ==> 0 <= #[trigger] p[k] < i,
            forall|a: int, b: int| 0 <= a < b < i ==> #[trigger] p[a] != #[trigger] p[b],
            forall|k: int| 0 <= k < i ==> #[trigger] string_views(out@)[k] == vs[p[k]],
            forall|a: int, b: int|
                0 <= a < b < i ==> version_order(
                    #[trigger] string_views(out@)[a],
                    #[trigger] string_views(out@)[b],
                ) >= 0,
            forall|a: int, b: int|
                0 <= a < b < i && version_order(
                    #[trigger] string_views(out@)[a],
                    #[trigger] string_views(out@)[b],
                ) == 0 ==> p[a] < p[b],
        decreases versions@.len() - i,
    {
        let x = &versions[i];
        let ghost xv = x@;
        let mut pos: usize = 0;
        while pos < out.len() && version_sign(out[pos].as_str(), x.as_str()) >= 0
            invariant
                pos <= out@.len(),
                xv == x@,
                forall|k: int| 0 <= k < pos ==> version_order(#[trigger] string_views(out@)[k], xv) >= 0,
            decreases out@.len() - pos,
        {
            pos = pos + 1;
        }
        let ghost ov = string_views(out@);
        let ghost op = p;
        out.insert(pos, x.clone());
        proof {
            p = op.insert(pos as int, i as int);
            let nv = string_views(out@);
            assert(nv =~= ov.insert(pos as int, xv));
            if pos < ov.len() {
                assert(version_order(ov[pos as int], xv) < 0);
                lemma_numbers_order_antisym(version_numbers(ov[pos as int]), version_numbers(xv));
            }
            assert forall|a: int, b: int| 0 <= a < b < i + 1 implies version_order(
                #[trigger] nv[a],
                #[trigger] nv[b],
            ) >= 0 by {
                if b < pos {
                } else if a < pos && b == pos {
                } else if a < pos && b > pos {
                    assert(nv[b] == ov[b - 1]);
                } else if a == pos && b > pos {
                    assert(nv[b] == ov[b - 1]);
                    let xn = version_numbers(xv);
                    let pn = version_numbers(ov[pos as int]);
                    let bn = version_numbers(ov[b - 1]);
                    lemma_numbers_order_antisym(pn, bn);
                    lemma_numbers_order_antisym(xn, bn);
                    if b - 1 > pos {
                        lemma_numbers_order_trans(bn, pn, xn);
                    }
                } else {
                    assert(nv[a] == ov[a - 1]);
                    assert(nv[b] == ov[b - 1]);
                }
            }
            assert forall|a: int, b: int|
                0 <= a < b < i + 1 && version_order(#[trigger] nv[a], #[trigger] nv[b]) == 0 implies p[a]
                < p[b] by {
                if b < pos {
                } else if a < pos && b == pos {
                    assert(p[b] == i);
                } else if a < pos && b > pos {
                    assert(nv[b] == ov[b - 1]);
                } else if a == pos && b > pos {
                    assert(nv[b] == ov[b - 1]);
                    let xn = version_numbers(xv);
                    let pn = version_numbers(ov[pos as int]);
                    let bn = version_numbers(ov[b - 1]);
                    lemma_numbers_order_antisym(pn, bn);
                    lemma_numbers_order_antisym(xn, bn);
                    if b - 1 > pos {
                        lemma_numbers_order_trans(bn, pn, xn);
                    }
                } else {
                    assert(nv[a] == ov[a - 1]);
                    assert(nv[b] == ov[b - 1]);
                }
            }
            assert forall|k: int| 0 <= k < i + 1 implies #[trigger] nv[k] == vs[p[k]] by {
                if k < pos {
                } else if k == pos {
                } else {
                    assert(nv[k] == ov[k - 1]);
                }
            }
            assert forall|a: int, b: int| 0 <= a < b < i + 1 implies #[trigger] p[a] != #[trigger] p[b] by {
                if a < pos && b == pos {
                } else if a < pos && b > pos {
                } else if a == pos && b > pos {
                } else {
                }
            }
        }
        i = i + 1;
    }
    assert(is_permutation(p, vs.len() as int));
    out
}

// ---------------------------------------------------------------------------
// Updating a client instance
// ---------------------------------------------------------------------------

/// What the interface is told when the installer could not build the client
/// jar: its output, trimmed and cut to 240 characters, or a fixed text when
/// it printed nothing.
pub open spec fn installer_failure(stdout: Seq<char>, stderr: Seq<char>) -> Seq<char> {
    let combined = trim(stdout + "\n"@ + stderr);
    if combined.len() == 0 {
        "NeoForge installer не смог создать client.jar."@
    } else if combined.len() > 240 {
        combined.take(240) + "…"@
    } else {
        combined
    }
}

pub fn installer_failure_message(stdout: &str, stderr: &str) -> (r: String)
    ensures
        r@ == installer_failure(stdout@, stderr@),
{
    let mut all = stdout.to_string();
    all.append("\n");
    all.append(stderr);
    let combined = trimmed(all.as_str());
    if combined.len() == 0 {
        "NeoForge installer не смог создать client.jar.".to_string()
    } else if combined.len() > 240 {
        let mut out = string_of(&crate::text::slice_chars(&combined, 0, 240));
        out.append("…");
        proof {
            assert(combined@.subrange(0, 240) =~= combined@.take(240));
        }
        out
    } else {
        string_of(&combined)
    }
}

/// The first component of a MultiMC pack with the NeoForge uid.
pub open spec fn neoforge_component_of(uids: Seq<Option<String>>) -> Option<int>
    decreases uids.len(),
{
    if uids.len() == 0 {
        None
    } else {
        match neoforge_component_of(uids.drop_last()) {
            Some(i) => Some(i),
            None => if opt_view(uids.last()) == Some("net.neoforged"@) {
                Some(uids.len() - 1)
            } else {
                None
            },
        }
    }
}

/// Which component of `mmc-pack.json` (by the uids of its components, in
/// order) gets the new NeoForge version; an error without one.
pub fn neoforge_component(uids: &Vec<Option<String>>) -> (r: Result<usize, String>)
    ensures
        match neoforge_component_of(uids@) {
            Some(i) => r == Ok::<usize, String>(i as usize),
            None => r matches Err(e) && e@ == "В mmc-pack.json нет компонента net.neoforged."@,
        },
{
    let mut i: usize = 0;
    while i < uids.len()
        invariant
            i <= uids@.len(),
            neoforge_component_of(uids@.take(i as int)) is None,
        decreases uids@.len() - i,
    {
        assert(uids@.take(i + 1).drop_last() =~= uids@.take(i as int));
        let hit = match &uids[i] {
            Some(u) => {
                let uv = chars_of(u.as_str());
                eq_str(&uv, "net.neoforged")
            },
            None => false,
        };
        if hit {
            proof {
                lemma_component_stays(uids@, i as int, i + 1);
            }
            return Ok(i);
        }
        i = i + 1;
    }
    assert(uids@.take(uids@.len() as int) =~= uids@);
    Err("В mmc-pack.json нет компонента net.neoforged.".to_string())
}

proof fn lemma_component_stays(uids: Seq<Option<String>>, i: int, n: int)
    requires
        0 <= i < n <= uids.len(),
        neoforge_component_of(uids.take(n)) == Some(i),
    ensures
        neoforge_component_of(uids) == Some(i),
    decreases uids.len() - n,
{
    if n == uids.len() {
        assert(uids.take(n) =~= uids);
    } else {
        assert(uids.take(n + 1).drop_last() =~= uids.take(n));
        lemma_component_stays(uids, i, n + 1);
    }
}

/// The file name of a NeoForge artifact.
pub fn artifact_file_name(version: &str, artifact: &str) -> (r: String)
    ensures
        r@ == "neoforge-"@ + version@ + "-"@ + artifact@ + ".jar"@,
{
    let mut out = "neoforge-".to_string();
    out.append(version);
    out.append("-");
    out.append(artifact);
    out.append(".jar");
    out
}

} // verus!
