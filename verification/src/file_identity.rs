//! Identities of a jar file as the providers compute them: the SHA-512 that
//! Modrinth indexes, and CurseForge's MurmurHash2 fingerprint of the file with
//! white space removed.
use vstd::prelude::*;
use vstd::wrapping::u32_specs::wrapping_mul;
use sha2::Digest;
use crate::text::string_views;

verus! {

/// A file's identities.
pub struct FileIdentity {
    pub sha512: String,
    pub curseforge_fingerprint: u32,
}

// ---------------------------------------------------------------------------
// MurmurHash2 (seed 1), as CurseForge computes it
// ---------------------------------------------------------------------------

pub open spec fn murmur_m() -> u32 {
    0x5bd1e995
}

/// A little-endian word of four bytes.
pub open spec fn le_word(b0: u8, b1: u8, b2: u8, b3: u8) -> u32 {
    (b0 as u32) | ((b1 as u32) << 8u32) | ((b2 as u32) << 16u32) | ((b3 as u32) << 24u32)
}

/// One four-byte block mixed into the hash.
pub open spec fn mix_block(hash: u32, word: u32) -> u32 {
    let k1 = wrapping_mul(word, murmur_m());
    let k2 = k1 ^ (k1 >> 24u32);
    let k3 = wrapping_mul(k2, murmur_m());
    wrapping_mul(hash, murmur_m()) ^ k3
}

/// The hash after the first `n` whole blocks.
pub open spec fn hash_blocks(bytes: Seq<u8>, n: nat, seed: u32) -> u32
    decreases n,
{
    if n == 0 || 4 * n > bytes.len() {
        seed
    } else {
        let i = 4 * (n - 1);
        mix_block(
            hash_blocks(bytes, (n - 1) as nat, seed),
            le_word(bytes[i], bytes[i + 1], bytes[i + 2], bytes[i + 3]),
        )
    }
}

/// The one to three bytes after the last whole block.
pub open spec fn mix_tail(hash: u32, bytes: Seq<u8>, start: int) -> u32 {
    let rem = bytes.len() - start;
    if rem == 3 {
        wrapping_mul(
            hash ^ ((bytes[start + 2] as u32) << 16u32) ^ ((bytes[start + 1] as u32) << 8u32)
                ^ (bytes[start] as u32),
            murmur_m(),
        )
    } else if rem == 2 {
        wrapping_mul(hash ^ ((bytes[start + 1] as u32) << 8u32) ^ (bytes[start] as u32), murmur_m())
    } else if rem == 1 {
        wrapping_mul(hash ^ (bytes[start] as u32), murmur_m())
    } else {
        hash
    }
}

pub open spec fn avalanche(hash: u32) -> u32 {
    let h1 = hash ^ (hash >> 13u32);
    let h2 = wrapping_mul(h1, murmur_m());
    h2 ^ (h2 >> 15u32)
}

/// MurmurHash2 with seed 1 over the bytes (length taken as `u32`).
pub open spec fn murmur2_hash(bytes: Seq<u8>) -> u32 {
    let n = bytes.len() / 4;
    let seed = 1u32 ^ (bytes.len() as u32);
    avalanche(mix_tail(hash_blocks(bytes, n, seed), bytes, (4 * n) as int))
}

pub fn murmur2(bytes: &[u8]) -> (r: u32)
    ensures
        r == murmur2_hash(bytes@),
{
    let m: u32 = 0x5bd1e995;
    let len = bytes.len();
    let mut hash: u32 = 1u32 ^ (len as u32);
    let ghost seed = hash;
    let blocks = len / 4;
    let mut n: usize = 0;
    while n < blocks
        invariant
            len == bytes@.len(),
            blocks == len / 4,
            n <= blocks,
            m == murmur_m(),
            hash == hash_blocks(bytes@, n as nat, seed),
        decreases blocks - n,
    {
        let i = 4 * n;
        let word: u32 = (bytes[i] as u32) | ((bytes[i + 1] as u32) << 8u32) | ((bytes[i + 2] as u32)
            << 16u32) | ((bytes[i + 3] as u32) << 24u32);
        let mut k = word.wrapping_mul(m);
        k = k ^ (k >> 24u32);
        k = k.wrapping_mul(m);
        hash = hash.wrapping_mul(m);
        hash = hash ^ k;
        n = n + 1;
    }
    let start = 4 * blocks;
    let rem = len - start;
    if rem == 3 {
        hash = hash ^ ((bytes[start + 2] as u32) << 16u32);
        hash = hash ^ ((bytes[start + 1] as u32) << 8u32);
        hash = hash ^ (bytes[start] as u32);
        hash = hash.wrapping_mul(m);
    } else if rem == 2 {
        hash = hash ^ ((bytes[start + 1] as u32) << 8u32);
        hash = hash ^ (bytes[start] as u32);
        hash = hash.wrapping_mul(m);
    } else if rem == 1 {
        hash = hash ^ (bytes[start] as u32);
        hash = hash.wrapping_mul(m);
    }
    hash = hash ^ (hash >> 13u32);
    hash = hash.wrapping_mul(m);
    hash = hash ^ (hash >> 15u32);
    hash
}

/// Tab, line feed, carriage return and space: the bytes CurseForge ignores.
pub open spec fn ws_byte(b: u8) -> bool {
    b == 9 || b == 10 || b == 13 || b == 32
}

/// The bytes with white space removed.
pub open spec fn without_ws(bytes: Seq<u8>) -> Seq<u8>
    decreases bytes.len(),
{
    if bytes.len() == 0 {
        bytes
    } else if ws_byte(bytes.last()) {
        without_ws(bytes.drop_last())
    } else {
        without_ws(bytes.drop_last()).push(bytes.last())
    }
}

/// CurseForge's fingerprint of a file.
pub open spec fn fingerprint(bytes: Seq<u8>) -> u32 {
    murmur2_hash(without_ws(bytes))
}

pub fn curseforge_fingerprint(bytes: &[u8]) -> (r: u32)
    ensures
        r == fingerprint(bytes@),
{
    let mut normalized: Vec<u8> = Vec::new();
    let mut i: usize = 0;
    while i < bytes.len()
        invariant
            i <= bytes@.len(),
            normalized@ == without_ws(bytes@.take(i as int)),
        decreases bytes@.len() - i,
    {
        let b = bytes[i];
        assert(bytes@.take(i + 1).drop_last() =~= bytes@.take(i as int));
        if !(b == 9 || b == 10 || b == 13 || b == 32) {
            normalized.push(b);
        }
        i = i + 1;
    }
    assert(bytes@.take(bytes@.len() as int) =~= bytes@);
    murmur2(normalized.as_slice())
}

proof fn lemma_without_ws_idempotent(bytes: Seq<u8>)
    ensures
        without_ws(without_ws(bytes)) == without_ws(bytes),
    decreases bytes.len(),
{
    if bytes.len() > 0 {
        lemma_without_ws_idempotent(bytes.drop_last());
        if !ws_byte(bytes.last()) {
            let w = without_ws(bytes.drop_last()).push(bytes.last());
            assert(w.drop_last() =~= without_ws(bytes.drop_last()));
        }
    }
}

/// White space in a file does not change its fingerprint: the file and the
/// same file with all white space removed have one fingerprint.
pub proof fn lemma_fingerprint_ignores_whitespace(bytes: Seq<u8>)
    ensures
        fingerprint(bytes) == fingerprint(without_ws(bytes)),
{
    lemma_without_ws_idempotent(bytes);
}

// ---------------------------------------------------------------------------
// Hex digests
// ---------------------------------------------------------------------------

pub open spec fn hex_digit(n: u8) -> char {
    if n < 10 {
        ((n as u32) + ('0' as u32)) as char
    } else {
        ((n as u32) - 10 + ('a' as u32)) as char
    }
}

/// Two lower-case hex digits per byte.
pub open spec fn hex_lower(bytes: Seq<u8>) -> Seq<char>
    decreases bytes.len(),
{
    if bytes.len() == 0 {
        Seq::<char>::empty()
    } else {
        hex_lower(bytes.drop_last()) + seq![hex_digit(bytes.last() / 16), hex_digit(bytes.last() % 16)]
    }
}

fn hex_char(n: u8) -> (r: char)
    requires
        n < 16,
    ensures
        r == hex_digit(n),
{
    if n < 10 {
        (n + 48) as char
    } else {
        (n - 10 + 97) as char
    }
}

pub fn hex_string(bytes: &[u8]) -> (r: String)
    ensures
        r@ == hex_lower(bytes@),
{
    let mut r = String::new();
    let mut i: usize = 0;
    while i < bytes.len()
        invariant
            i <= bytes@.len(),
            r@ == hex_lower(bytes@.take(i as int)),
        decreases bytes@.len() - i,
    {
        let b = bytes[i];
        assert(bytes@.take(i + 1).drop_last() =~= bytes@.take(i as int));
        r.push(hex_char(b / 16));
        r.push(hex_char(b % 16));
        assert(r@ =~= hex_lower(bytes@.take(i as int)) + seq![hex_digit(b / 16), hex_digit(b % 16)]);
        i = i + 1;
    }
    assert(bytes@.take(bytes@.len() as int) =~= bytes@);
    r
}

/// The SHA-512 digest of some bytes.
pub uninterp spec fn sha512_digest(bytes: Seq<u8>) -> Seq<u8>;

/// The SHA-256 digest of some bytes.
pub uninterp spec fn sha256_digest(bytes: Seq<u8>) -> Seq<u8>;

/// `sha2::Sha512::digest`: the 64-byte SHA-512 digest of the bytes.
#[verifier::external_body]
fn sha512(bytes: &[u8]) -> (r: Vec<u8>)
    ensures
        r@ == sha512_digest(bytes@),
        r@.len() == 64,
{
    sha2::Sha512::digest(bytes).to_vec()
}

/// `sha2::Sha256::digest`: the 32-byte SHA-256 digest of the bytes.
#[verifier::external_body]
fn sha256(bytes: &[u8]) -> (r: Vec<u8>)
    ensures
        r@ == sha256_digest(bytes@),
        r@.len() == 32,
{
    sha2::Sha256::digest(bytes).to_vec()
}

/// The SHA-512 of the bytes as 128 lower-case hex digits.
pub fn sha512_hex(bytes: &[u8]) -> (r: String)
    ensures
        r@ == hex_lower(sha512_digest(bytes@)),
{
    let digest = sha512(bytes);
    hex_string(digest.as_slice())
}

/// The SHA-256 of the bytes as 64 lower-case hex digits.
pub fn sha256_hex(bytes: &[u8]) -> (r: String)
    ensures
        r@ == hex_lower(sha256_digest(bytes@)),
        r@.len() == 64,
{
    let digest = sha256(bytes);
    proof {
        lemma_hex_lower_len(digest@);
    }
    hex_string(digest.as_slice())
}

/// Hex text is twice as long as its bytes.
pub proof fn lemma_hex_lower_len(bytes: Seq<u8>)
    ensures
        hex_lower(bytes).len() == 2 * bytes.len(),
    decreases bytes.len(),
{
    if bytes.len() > 0 {
        lemma_hex_lower_len(bytes.drop_last());
    }
}

/// Both identities of a file's contents.
pub fn file_identity(bytes: &[u8]) -> (r: FileIdentity)
    ensures
        r.sha512@ == hex_lower(sha512_digest(bytes@)),
        r.curseforge_fingerprint == fingerprint(bytes@),
{
    FileIdentity { sha512: sha512_hex(bytes), curseforge_fingerprint: curseforge_fingerprint(bytes) }
}

/// A jar's name by how `Path::extension` reads it: it ends in `.jar` and has
/// something before that.
pub open spec fn is_jar_name(name: Seq<char>) -> bool {
    crate::text::ends_with(name, ".jar"@) && name.len() > 4
}

/// The jars among a folder's entry names, in listing order.
pub fn jar_names(names: &Vec<String>) -> (r: Vec<String>)
    ensures
        string_views(r@) == string_views(names@).filter(|n: Seq<char>| is_jar_name(n)),
{
    let ghost nv = string_views(names@);
    let mut out: Vec<String> = Vec::new();
    let mut i: usize = 0;
    while i < names.len()
        invariant
            i <= names@.len(),
            nv == string_views(names@),
            string_views(out@) == nv.take(i as int).filter(|n: Seq<char>| is_jar_name(n)),
        decreases names@.len() - i,
    {
        proof {
            assert(nv.take(i + 1).drop_last() =~= nv.take(i as int));
            assert(nv.take(i + 1).last() == names@[i as int]@);
            reveal(Seq::filter);
        }
        let name = crate::text::chars_of(names[i].as_str());
        if crate::text::ends_with_str(&name, ".jar") && name.len() > 4 {
            let ghost before = out@;
            out.push(names[i].clone());
            assert(string_views(out@) =~= string_views(before).push(names@[i as int]@));
        }
        i = i + 1;
    }
    assert(nv.take(nv.len() as int) =~= nv);
    out
}

/// The line a jar contributes to the fingerprint of a mods folder: its name
/// and modification time in milliseconds.
pub open spec fn fingerprint_line(name: Seq<char>, mtime_ms: u64) -> Seq<char> {
    name + ":"@ + crate::text::decimal(mtime_ms as nat)
}

/// The lines of the jars among a folder's entries, in listing order.
pub open spec fn jar_lines(entries: Seq<(String, u64)>) -> Seq<Seq<char>>
    decreases entries.len(),
{
    if entries.len() == 0 {
        Seq::empty()
    } else if is_jar_name(entries.last().0@) {
        jar_lines(entries.drop_last()).push(fingerprint_line(entries.last().0@, entries.last().1))
    } else {
        jar_lines(entries.drop_last())
    }
}

/// The lines in sorted order (there is exactly one such arrangement, see
/// `lemma_sorted_lines_unique`).
pub open spec fn sorted_lines(lines: Seq<Seq<char>>) -> Seq<Seq<char>> {
    choose|p: Seq<Seq<char>>| crate::updates::text_sorted(p) && p.to_multiset() == lines.to_multiset()
}

/// The fingerprint of a mods folder from its entries (name and modification
/// time in milliseconds): the SHA-256, in lower-case hex, of the sorted jar
/// lines joined by newlines.
pub open spec fn folder_fingerprint(entries: Seq<(String, u64)>) -> Seq<char> {
    hex_lower(sha256_digest(vstd::utf8::encode_utf8(crate::text::join(sorted_lines(jar_lines(entries)), "\n"@))))
}

/// `a` before or equal to `b` in text order.
pub open spec fn text_le(a: Seq<char>, b: Seq<char>) -> bool {
    !crate::text::seq_lt(b, a)
}

/// Two sorted arrangements of the same lines are the same.
pub proof fn lemma_sorted_lines_unique(p: Seq<Seq<char>>, q: Seq<Seq<char>>)
    requires
        crate::updates::text_sorted(p),
        crate::updates::text_sorted(q),
        p.to_multiset() == q.to_multiset(),
    ensures
        p == q,
{
    let leq = |a: Seq<char>, b: Seq<char>| text_le(a, b);
    assert forall|x: Seq<char>| #[trigger] leq(x, x) by {
        crate::text::lemma_seq_lt_irreflexive(x);
    }
    assert forall|x: Seq<char>, y: Seq<char>| #[trigger] leq(x, y) && #[trigger] leq(y, x) implies x == y by {
        crate::text::lemma_seq_lt_total(x, y);
    }
    assert forall|x: Seq<char>, y: Seq<char>, z: Seq<char>| #[trigger] leq(x, y) && #[trigger] leq(y, z) implies leq(x, z) by {
        crate::text::lemma_seq_lt_total(x, y);
        crate::text::lemma_seq_lt_total(y, z);
        if crate::text::seq_lt(z, x) {
            if x != y && y != z {
                crate::text::lemma_seq_lt_transitive(x, y, z);
                crate::text::lemma_seq_lt_asymmetric(x, z);
            } else if x == y {
                crate::text::lemma_seq_lt_asymmetric(x, z);
            } else {
                crate::text::lemma_seq_lt_asymmetric(y, x);
            }
        }
    }
    assert forall|x: Seq<char>, y: Seq<char>| #[trigger] leq(x, y) || #[trigger] leq(y, x) by {
        crate::text::lemma_seq_lt_asymmetric(x, y);
    }
    assert(vstd::relations::total_ordering(leq));
    assert(vstd::relations::sorted_by(p, leq));
    assert(vstd::relations::sorted_by(q, leq));
    vstd::seq_lib::lemma_sorted_unique(p, q, leq);
}

/// The fingerprint does not depend on the order in which the folder lists
/// its entries, nor on the entries that are not jars: entries whose jar
/// lines are the same, in any order, give the same fingerprint.
pub proof fn lemma_fingerprint_ignores_order(a: Seq<(String, u64)>, b: Seq<(String, u64)>)
    requires
        jar_lines(a).to_multiset() == jar_lines(b).to_multiset(),
    ensures
        folder_fingerprint(a) == folder_fingerprint(b),
{
}

pub fn mods_fingerprint(jars: &Vec<(String, u64)>) -> (r: String)
    ensures
        r@ == folder_fingerprint(jars@),
{
    let mut lines: Vec<String> = Vec::new();
    let mut i: usize = 0;
    while i < jars.len()
        invariant
            i <= jars@.len(),
            string_views(lines@) == jar_lines(jars@.take(i as int)),
        decreases jars@.len() - i,
    {
        assert(jars@.take(i + 1).drop_last() =~= jars@.take(i as int));
        let name = crate::text::chars_of(jars[i].0.as_str());
        if crate::text::ends_with_str(&name, ".jar") && name.len() > 4 {
            let mut line = jars[i].0.clone();
            line.append(":");
            line.append(crate::text::decimal_string(jars[i].1).as_str());
            let ghost before = lines@;
            lines.push(line);
            assert(string_views(lines@) =~= string_views(before).push(fingerprint_line(jars@[i as int].0@, jars@[i as int].1)));
        }
        i = i + 1;
    }
    assert(jars@.take(jars@.len() as int) =~= jars@);
    let sorted = crate::updates::sort_texts(lines);
    let text = crate::text::join_strings(&sorted, "\n");
    let r = sha256_hex(text.as_str().as_bytes());
    proof {
        let p = string_views(sorted@);
        assert(crate::updates::text_sorted(p));
        let c = sorted_lines(jar_lines(jars@));
        assert(crate::updates::text_sorted(c) && c.to_multiset() == jar_lines(jars@).to_multiset());
        lemma_sorted_lines_unique(p, c);
    }
    r
}

} // verus!
