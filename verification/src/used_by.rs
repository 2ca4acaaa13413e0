//! Which mods use a mod: the reverse of the resolved dependencies of a scan.
use vstd::prelude::*;
use crate::text::{chars_of, eq_str, lemma_seq_lt_asymmetric, lemma_seq_lt_total, lemma_seq_lt_transitive, seq_lt, str_lt, string_views};
use crate::mods::ModEntry;
use crate::mod_files::{entry_of, find_entry};

verus! {

/// The keys of the entries before `upto` that depend on `key` (not counting
/// an entry's dependency on itself), each once, in scan order.
pub open spec fn users_of(mods: Seq<ModEntry>, key: Seq<char>, upto: int) -> Seq<Seq<char>>
    decreases upto,
{
    if upto <= 0 || upto > mods.len() {
        Seq::empty()
    } else {
        let rest = users_of(mods, key, upto - 1);
        let m = mods[upto - 1];
        if m.key@ != key && string_views(m.resolved_dependencies@).contains(key) && !rest.contains(m.key@) {
            rest.push(m.key@)
        } else {
            rest
        }
    }
}

/// The position of the last entry with `key` among the first `upto`.
pub open spec fn last_entry(mods: Seq<ModEntry>, key: Seq<char>, upto: int) -> Option<int>
    decreases upto,
{
    if upto <= 0 || upto > mods.len() {
        None
    } else if mods[upto - 1].key@ == key {
        Some(upto - 1)
    } else {
        last_entry(mods, key, upto - 1)
    }
}

/// The name users are ordered by: the display name of the last entry with
/// the key, else the key.
pub open spec fn name_for(mods: Seq<ModEntry>, key: Seq<char>) -> Seq<char> {
    match last_entry(mods, key, mods.len() as int) {
        Some(i) => mods[i].display_name@,
        None => key,
    }
}

/// Keys in order of their names.
pub open spec fn by_name(mods: Seq<ModEntry>, keys: Seq<Seq<char>>) -> bool {
    forall|a: int, b: int| 0 <= a < b < keys.len() ==> !seq_lt(#[trigger] name_for(mods, keys[b]), #[trigger] name_for(mods, keys[a]))
}

/// The users shown for the entry at `i`: those of its key, by name (users
/// with the same name in scan order), for the first entry with the key; none
/// for a later entry with the same key.
pub open spec fn used_by_at(mods: Seq<ModEntry>, i: int, shown: Seq<Seq<char>>) -> bool {
    if entry_of(mods, mods[i].key@) == Some(i) {
        &&& shown.to_multiset() == users_of(mods, mods[i].key@, mods.len() as int).to_multiset()
        &&& by_name(mods, shown)
        &&& exists|idx: Seq<int>| #[trigger] keeps_name_order(mods, users_of(mods, mods[i].key@, mods.len() as int), shown, idx)
    } else {
        shown.len() == 0
    }
}

/// A mod depends on `key`: its key differs and its resolved dependencies
/// name `key`.
pub open spec fn depends_on(m: ModEntry, key: Seq<char>) -> bool {
    m.key@ != key && string_views(m.resolved_dependencies@).contains(key)
}

proof fn lemma_users_of(mods: Seq<ModEntry>, key: Seq<char>, upto: int, user: Seq<char>)
    requires
        0 <= upto <= mods.len(),
    ensures
        users_of(mods, key, upto).contains(user) <==> exists|j: int|
            0 <= j < upto && #[trigger] mods[j].key@ == user && depends_on(mods[j], key),
    decreases upto,
{
    if upto > 0 {
        lemma_users_of(mods, key, upto - 1, user);
        let rest = users_of(mods, key, upto - 1);
        let m = mods[upto - 1];
        if exists|j: int| 0 <= j < upto && #[trigger] mods[j].key@ == user && depends_on(mods[j], key) {
            let j = choose|j: int| 0 <= j < upto && #[trigger] mods[j].key@ == user && depends_on(mods[j], key);
            if j < upto - 1 {
                assert(rest.contains(user));
                if m.key@ != key && string_views(m.resolved_dependencies@).contains(key) && !rest.contains(m.key@) {
                    assert(rest.push(m.key@).contains(user)) by {
                        let t = choose|t: int| 0 <= t < rest.len() && rest[t] == user;
                        assert(rest.push(m.key@)[t] == user);
                    }
                }
            } else {
                if !rest.contains(m.key@) {
                    assert(rest.push(m.key@)[rest.len() as int] == user);
                }
            }
        }
        if users_of(mods, key, upto).contains(user) && !rest.contains(user) {
            let after = rest.push(m.key@);
            let t = choose|t: int| 0 <= t < after.len() && after[t] == user;
            assert(t == rest.len());
            assert(mods[upto - 1].key@ == user);
        }
    }
}

/// The users shown for a mod are exactly the other mods whose resolved
/// dependencies name it: reverse links are computed, never stored.
pub proof fn lemma_used_by_reverses_dependencies(mods: Seq<ModEntry>, i: int, shown: Seq<Seq<char>>, user: Seq<char>)
    requires
        0 <= i < mods.len(),
        entry_of(mods, mods[i].key@) == Some(i),
        used_by_at(mods, i, shown),
    ensures
        shown.contains(user) <==> exists|j: int|
            0 <= j < mods.len() && #[trigger] mods[j].key@ == user && depends_on(mods[j], mods[i].key@),
{
    broadcast use vstd::seq_lib::group_to_multiset_ensures;

    let users = users_of(mods, mods[i].key@, mods.len() as int);
    lemma_users_of(mods, mods[i].key@, mods.len() as int, user);
    assert(shown.to_multiset().count(user) == users.to_multiset().count(user));
}

fn contains_view(list: &Vec<String>, x: &str) -> (r: bool)
    ensures
        r == string_views(list@).contains(x@),
{
    let xv = chars_of(x);
    let mut i: usize = 0;
    while i < list.len()
        invariant
            i <= list@.len(),
            xv@ == x@,
            forall|j: int| 0 <= j < i ==> string_views(list@)[j] != x@,
        decreases list@.len() - i,
    {
        if eq_str(&xv, list[i].as_str()) {
            assert(string_views(list@)[i as int] == x@);
            return true;
        }
        i = i + 1;
    }
    false
}

fn users_exec(mods: &Vec<ModEntry>, key: &String) -> (r: Vec<String>)
    ensures
        string_views(r@) == users_of(mods@, key@, mods@.len() as int),
{
    let kv = chars_of(key.as_str());
    let mut r: Vec<String> = Vec::new();
    let mut j: usize = 0;
    while j < mods.len()
        invariant
            j <= mods@.len(),
            kv@ == key@,
            string_views(r@) == users_of(mods@, key@, j as int),
        decreases mods@.len() - j,
    {
        let m = &mods[j];
        if !eq_str(&kv, m.key.as_str()) && contains_view(&m.resolved_dependencies, key.as_str())
            && !contains_view(&r, m.key.as_str()) {
            let ghost before = r@;
            r.push(m.key.clone());
            assert(string_views(r@) =~= string_views(before).push(m.key@));
        }
        j = j + 1;
    }
    r
}

fn name_exec(mods: &Vec<ModEntry>, key: &String) -> (r: String)
    ensures
        r@ == name_for(mods@, key@),
{
    let kv = chars_of(key.as_str());
    let mut j: usize = mods.len();
    while j > 0
        invariant
            j <= mods@.len(),
            kv@ == key@,
            last_entry(mods@, key@, mods@.len() as int) == last_entry(mods@, key@, j as int),
        decreases j,
    {
        if eq_str(&kv, mods[j - 1].key.as_str()) {
            return mods[j - 1].display_name.clone();
        }
        j = j - 1;
    }
    key.clone()
}

proof fn lemma_lt_le(a: Seq<char>, b: Seq<char>, c: Seq<char>)
    requires
        seq_lt(a, b),
        !seq_lt(c, b),
    ensures
        !seq_lt(c, a),
{
    lemma_seq_lt_total(b, c);
    if b != c {
        lemma_seq_lt_transitive(a, b, c);
        lemma_seq_lt_asymmetric(a, c);
    } else {
        lemma_seq_lt_asymmetric(a, b);
    }
}

/// `out[k]` is `input[idx[k]]`, each input position is used once, and of two
/// keys with the same name the one that came first stays first.
pub open spec fn keeps_name_order(mods: Seq<ModEntry>, input: Seq<Seq<char>>, out: Seq<Seq<char>>, idx: Seq<int>) -> bool {
    &&& idx.len() == out.len()
    &&& forall|k: int| 0 <= k < out.len() ==> 0 <= #[trigger] idx[k] < input.len() && out[k] == input[idx[k]]
    &&& forall|a: int, b: int|
        0 <= a < b < out.len() ==> #[trigger] idx[a] != #[trigger] idx[b] && (name_for(mods, out[a]) == name_for(
            mods,
            out[b],
        ) ==> idx[a] < idx[b])
}

/// `keys` ordered by name; equal names keep their order.
fn sort_by_name(mods: &Vec<ModEntry>, keys: Vec<String>) -> (r: Vec<String>)
    ensures
        string_views(r@).to_multiset() == string_views(keys@).to_multiset(),
        by_name(mods@, string_views(r@)),
        exists|idx: Seq<int>| #[trigger] keeps_name_order(mods@, string_views(keys@), string_views(r@), idx),
{
    broadcast use vstd::seq_lib::group_to_multiset_ensures;

    let ghost all = string_views(keys@);
    let mut out: Vec<String> = Vec::new();
    let mut names: Vec<String> = Vec::new();
    let mut i: usize = 0;
    let ghost mut idx: Seq<int> = Seq::empty();
    while i < keys.len()
        invariant
            i <= keys@.len(),
            all == string_views(keys@),
            keeps_name_order(mods@, all.take(i as int), string_views(out@), idx),
            forall|t: int| 0 <= t < idx.len() ==> #[trigger] idx[t] < i,
            names@.len() == out@.len(),
            forall|t: int| 0 <= t < out@.len() ==> #[trigger] names@[t]@ == name_for(mods@, out@[t]@),
            string_views(out@).to_multiset() == all.take(i as int).to_multiset(),
            by_name(mods@, string_views(out@)),
        decreases keys@.len() - i,
    {
        let k = keys[i].clone();
        let nk = name_exec(mods, &k);
        let mut pos: usize = 0;
        while pos < out.len() && !str_lt(nk.as_str(), names[pos].as_str())
            invariant
                pos <= out@.len(),
                names@.len() == out@.len(),
                forall|t: int| 0 <= t < pos ==> !seq_lt(nk@, #[trigger] names@[t]@),
            decreases out@.len() - pos,
        {
            pos = pos + 1;
        }
        let ghost before = out@;
        let ghost before_names = names@;
        let ghost sv = string_views(before);
        out.insert(pos, k);
        names.insert(pos, nk);
        proof {
            assert(all.take(i + 1) =~= all.take(i as int).push(keys@[i as int]@));
            assert(string_views(out@) =~= sv.insert(pos as int, keys@[i as int]@));
            vstd::seq_lib::to_multiset_insert(sv, pos as int, keys@[i as int]@);
            vstd::seq_lib::to_multiset_build(all.take(i as int), keys@[i as int]@);
            assert forall|t: int| 0 <= t < out@.len() implies #[trigger] names@[t]@ == name_for(mods@, out@[t]@) by {
                if t < pos {
                } else if t > pos {
                    assert(names@[t] == before_names[t - 1]);
                    assert(out@[t] == before[t - 1]);
                }
            }
            let ov = string_views(out@);
            assert forall|a: int, b: int| 0 <= a < b < ov.len() implies !seq_lt(
                #[trigger] name_for(mods@, ov[b]),
                #[trigger] name_for(mods@, ov[a]),
            ) by {
                assert(ov[a] == out@[a]@);
                assert(ov[b] == out@[b]@);
                assert(names@[a]@ == name_for(mods@, ov[a]));
                assert(names@[b]@ == name_for(mods@, ov[b]));
                if b < pos {
                    assert(ov[a] == sv[a]);
                    assert(ov[b] == sv[b]);
                } else if a < pos && b == pos {
                    assert(names@[a] == before_names[a]);
                } else if a < pos && b > pos {
                    assert(ov[a] == sv[a]);
                    assert(ov[b] == sv[b - 1]);
                } else if a == pos && b > pos {
                    let bn = before_names[b - 1]@;
                    let pn = before_names[pos as int]@;
                    assert(names@[b] == before_names[b - 1]);
                    assert(seq_lt(nk@, pn));
                    if b - 1 > pos {
                        assert(sv[pos as int] == before[pos as int]@);
                        assert(sv[b - 1] == before[b - 1]@);
                        assert(!seq_lt(name_for(mods@, sv[b - 1]), name_for(mods@, sv[pos as int])));
                        assert(before_names[b - 1]@ == name_for(mods@, before[b - 1]@));
                        assert(before_names[pos as int]@ == name_for(mods@, before[pos as int]@));
                    } else {
                        crate::text::lemma_seq_lt_irreflexive(pn);
                    }
                    lemma_lt_le(nk@, pn, bn);
                } else {
                    assert(ov[a] == sv[a - 1]);
                    assert(ov[b] == sv[b - 1]);
                }
            }
            let old_idx = idx;
            let nin = all.take(i + 1);
            let oin = all.take(i as int);
            idx = old_idx.insert(pos as int, i as int);
            assert forall|t: int| 0 <= t < ov.len() implies 0 <= #[trigger] idx[t] < nin.len() && ov[t] == nin[idx[t]] by {
                if t < pos {
                    assert(idx[t] == old_idx[t]);
                    assert(ov[t] == sv[t]);
                    assert(nin[old_idx[t]] == oin[old_idx[t]]);
                } else if t > pos {
                    assert(idx[t] == old_idx[t - 1]);
                    assert(ov[t] == sv[t - 1]);
                    assert(nin[old_idx[t - 1]] == oin[old_idx[t - 1]]);
                }
            }
            assert forall|t: int| 0 <= t < idx.len() implies #[trigger] idx[t] < i + 1 by {
                if t > pos {
                    assert(idx[t] == old_idx[t - 1]);
                }
            }
            assert forall|a: int, b: int| 0 <= a < b < ov.len() implies #[trigger] idx[a] != #[trigger] idx[b] && (
            name_for(mods@, ov[a]) == name_for(mods@, ov[b]) ==> idx[a] < idx[b]) by {
                assert(ov[a] == out@[a]@);
                assert(ov[b] == out@[b]@);
                if b < pos {
                    assert(idx[a] == old_idx[a] && idx[b] == old_idx[b]);
                    assert(ov[a] == sv[a] && ov[b] == sv[b]);
                    assert(old_idx[a] != old_idx[b]);
                } else if a < pos && b == pos {
                    assert(idx[a] == old_idx[a]);
                    assert(old_idx[a] < i);
                } else if a < pos && b > pos {
                    assert(idx[a] == old_idx[a]);
                    assert(idx[b] == old_idx[b - 1]);
                    assert(ov[a] == sv[a] && ov[b] == sv[b - 1]);
                    assert(old_idx[a] != old_idx[b - 1]);
                } else if a == pos && b > pos {
                    assert(idx[b] == old_idx[b - 1]);
                    assert(old_idx[b - 1] < i);
                    assert(ov[b] == sv[b - 1]);
                    let pn = before_names[pos as int]@;
                    assert(seq_lt(nk@, pn));
                    assert(before_names[pos as int]@ == name_for(mods@, before[pos as int]@));
                    assert(sv[pos as int] == before[pos as int]@);
                    if b - 1 > pos {
                        assert(!seq_lt(name_for(mods@, sv[b - 1]), name_for(mods@, sv[pos as int])));
                    } else {
                        crate::text::lemma_seq_lt_irreflexive(pn);
                    }
                } else {
                    assert(idx[a] == old_idx[a - 1]);
                    assert(idx[b] == old_idx[b - 1]);
                    assert(ov[a] == sv[a - 1] && ov[b] == sv[b - 1]);
                    assert(old_idx[a - 1] != old_idx[b - 1]);
                }
            }
            assert(keeps_name_order(mods@, nin, ov, idx));
        }
        i = i + 1;
    }
    assert(all.take(all.len() as int) =~= all);
    assert(keeps_name_order(mods@, all, string_views(out@), idx));
    out
}

/// Fills in, for every entry of a scan, the mods that use it.
pub fn attach_used_by(mods: &mut Vec<ModEntry>)
    ensures
        final(mods)@.len() == old(mods)@.len(),
        forall|i: int| 0 <= i < old(mods)@.len() ==> {
            &&& #[trigger] final(mods)@[i] == ModEntry { used_by: final(mods)@[i].used_by, ..old(mods)@[i] }
            &&& used_by_at(old(mods)@, i, string_views(final(mods)@[i].used_by@))
        },
{
    let ghost orig = mods@;
    let n = mods.len();
    let mut lists: Vec<Vec<String>> = Vec::new();
    let mut i: usize = 0;
    while i < n
        invariant
            i <= n,
            n == mods@.len(),
            mods@ == orig,
            lists@.len() == i,
            forall|t: int| 0 <= t < i ==> used_by_at(orig, t, #[trigger] string_views(lists@[t]@)),
        decreases n - i,
    {
        let first = match find_entry(mods, mods[i].key.as_str()) {
            Some(p) => p == i,
            None => false,
        };
        if first {
            let users = users_exec(mods, &mods[i].key);
            let sorted = sort_by_name(mods, users);
            lists.push(sorted);
        } else {
            lists.push(Vec::new());
        }
        proof {
            assert(lists@[i as int] == lists@.last());
        }
        i = i + 1;
    }
    let ghost all_lists = lists@;
    let mut rest: Vec<ModEntry> = Vec::new();
    std::mem::swap(mods, &mut rest);
    let mut k: usize = 0;
    while k < n
        invariant
            k <= n,
            n == orig.len(),
            all_lists.len() == n,
            rest@ == orig.subrange(k as int, n as int),
            lists@ == all_lists.subrange(k as int, n as int),
            mods@.len() == k,
            forall|t: int| 0 <= t < n ==> used_by_at(orig, t, #[trigger] string_views(all_lists[t]@)),
            forall|t: int| 0 <= t < k ==> {
                &&& #[trigger] mods@[t] == ModEntry { used_by: mods@[t].used_by, ..orig[t] }
                &&& mods@[t].used_by@ == all_lists[t]@
            },
        decreases n - k,
    {
        let mut e = rest.remove(0);
        let list = lists.remove(0);
        proof {
            assert(e == orig[k as int]);
            assert(list == all_lists[k as int]);
        }
        e.used_by = list;
        mods.push(e);
        proof {
            assert(rest@ =~= orig.subrange(k + 1, n as int));
            assert(lists@ =~= all_lists.subrange(k + 1, n as int));
        }
        k = k + 1;
    }
    proof {
        assert forall|t: int| 0 <= t < orig.len() implies {
            &&& #[trigger] mods@[t] == ModEntry { used_by: mods@[t].used_by, ..orig[t] }
            &&& used_by_at(orig, t, string_views(mods@[t].used_by@))
        } by {
            assert(mods@[t].used_by@ == all_lists[t]@);
        }
    }
}

} // verus!
