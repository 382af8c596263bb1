use vstd::prelude::*;
use std::collections::hash_map::DefaultHasher;
use std::hash::{Hash, Hasher};

verus! {

/// ASCII case folding of one character: `A`..`Z` become `a`..`z`.
pub open spec fn ascii_lower_char(c: char) -> char {
    if 'A' <= c && c <= 'Z' {
        ((c as u8) + 32u8) as char
    } else {
        c
    }
}

/// ASCII case folding of a whole title.
pub open spec fn ascii_lower(s: Seq<char>) -> Seq<char> {
    s.map_values(|c: char| ascii_lower_char(c))
}

/// The 64-bit value that std's `DefaultHasher` gives for a string.
pub uninterp spec fn std_hash_of(s: Seq<char>) -> u64;

/// The same 64 bits read as a two's-complement signed integer.
pub open spec fn as_signed(x: u64) -> i64 {
    if x <= i64::MAX {
        x as i64
    } else {
        (x - 0x1_0000_0000_0000_0000int) as i64
    }
}

/// The id of a title: the hash of its ASCII-lowercased text, read as signed.
pub open spec fn identity_of(title: Seq<char>) -> i64 {
    as_signed(std_hash_of(ascii_lower(title)))
}

/// The characters of `s`, in order.
pub fn chars_of(s: &str) -> (r: Vec<char>)
    ensures
        r@ == s@,
{
    broadcast use vstd::string::group_string_axioms;
    let mut r: Vec<char> = Vec::new();
    for c in it: s.chars()
        invariant
            r@ == it.seq().take(it.index() as int),
    {
        r.push(c);
    }
    r
}

/// Relies on `String`'s `FromIterator<char>`: the string holds exactly these characters.
#[verifier::external_body]
pub(crate) fn string_of(v: &Vec<char>) -> (r: String)
    ensures
        r@ == v@,
{
    v.iter().collect()
}

/// Relies on `DefaultHasher::new`, `<str as Hash>::hash` and `finish`: a hasher
/// built by `new` always starts from the same keys, so the value depends on the
/// text alone.
#[verifier::external_body]
fn std_hash(s: &str) -> (r: u64)
    ensures
        r == std_hash_of(s@),
{
    let mut hasher = DefaultHasher::new();
    s.hash(&mut hasher);
    hasher.finish()
}

/// ASCII case folding, as `make_ascii_lowercase` does it.
pub fn to_ascii_lower(s: &Vec<char>) -> (r: Vec<char>)
    ensures
        r@ == ascii_lower(s@),
{
    let mut r: Vec<char> = Vec::with_capacity(s.len());
    for i in 0..s.len()
        invariant
            r@ == ascii_lower(s@.take(i as int)),
    {
        let c = s[i];
        let l = if 'A' <= c && c <= 'Z' {
            ((c as u8) + 32u8) as char
        } else {
            c
        };
        r.push(l);
        proof {
            assert(s@.take(i + 1) == s@.take(i as int).push(c));
        }
    }
    proof {
        assert(s@.take(s.len() as int) == s@);
    }
    r
}

/// Two's-complement reinterpretation of a `u64` as an `i64`.
pub fn reinterpret_signed(x: u64) -> (r: i64)
    ensures
        r == as_signed(x),
{
    if x <= i64::MAX as u64 {
        x as i64
    } else {
        let high: u64 = x - 0x8000_0000_0000_0000u64;
        (high as i64) + i64::MIN
    }
}

/// The graph id of a title: case-insensitive under ASCII folding, with no
/// collision detection.
pub fn identity(title: &str) -> (id: i64)
    ensures
        id == identity_of(title@),
{
    let lower = to_ascii_lower(&chars_of(title));
    let folded = string_of(&lower);
    reinterpret_signed(std_hash(folded.as_str()))
}

/// ASCII case folding does nothing more on a folded title.
pub proof fn lemma_ascii_lower_idempotent(s: Seq<char>)
    ensures
        ascii_lower(ascii_lower(s)) == ascii_lower(s),
{
    assert(ascii_lower(ascii_lower(s)) =~= ascii_lower(s));
}

/// Titles that differ only in ASCII letter case have the same id, and an id
/// depends on nothing but the title.
pub proof fn lemma_identity_case_insensitive(a: Seq<char>, b: Seq<char>)
    requires
        ascii_lower(a) == ascii_lower(b),
    ensures
        identity_of(a) == identity_of(b),
        identity_of(a) == identity_of(ascii_lower(a)),
{
    lemma_ascii_lower_idempotent(a);
}

} // verus!
