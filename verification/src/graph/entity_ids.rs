//! Entity comparison keys and deterministic, graph-unique entity IDs.
//!
//! Layer 1 normalizes only the representation of a name (sub/superscript
//! signs, white space, case). Layer 2 turns a normalized key into an
//! `entity-{slug}` ID and disambiguates collisions with a stable FNV-1a hash
//! of the full key, then with a decimal counter.
use vstd::prelude::*;

use crate::text::{
    char_is_alphanumeric, chars_of, collapse_whitespace_chars, collapse_ws, contains_str, decimal,
    hex_digits, is_alphanumeric_char, lowercase, push_chars, push_decimal, push_hex, strs,
    string_of_chars, to_lowercase, trim_chars, trim_seq,
};
use vstd::utf8::encode_utf8;

verus! {

// =====================================================================
// Layer 1 — representation normalization
// =====================================================================
/// Maps Unicode subscript digits and superscript signs to ASCII.
pub open spec fn script_fold(c: char) -> char {
    if c == '\u{2080}' {
        '0'
    } else if c == '\u{2081}' {
        '1'
    } else if c == '\u{2082}' {
        '2'
    } else if c == '\u{2083}' {
        '3'
    } else if c == '\u{2084}' {
        '4'
    } else if c == '\u{2085}' {
        '5'
    } else if c == '\u{2086}' {
        '6'
    } else if c == '\u{2087}' {
        '7'
    } else if c == '\u{2088}' {
        '8'
    } else if c == '\u{2089}' {
        '9'
    } else if c == '\u{207A}' {
        '+'
    } else if c == '\u{207B}' {
        '-'
    } else {
        c
    }
}

/// The comparison key of an entity name: scripts folded to ASCII, trimmed,
/// internal white space collapsed to single spaces, then lower-cased.
pub open spec fn normalize_key(name: Seq<char>) -> Seq<char> {
    lowercase(collapse_ws(trim_seq(name.map_values(|c: char| script_fold(c)))))
}

/// The Unicode subscript digits ₀ to ₉.
pub open spec fn subscript_digits() -> Seq<char> {
    seq!['\u{2080}', '\u{2081}', '\u{2082}', '\u{2083}', '\u{2084}', '\u{2085}', '\u{2086}', '\u{2087}', '\u{2088}', '\u{2089}']
}

/// The ASCII digits 0 to 9.
pub open spec fn ascii_digits() -> Seq<char> {
    seq!['0', '1', '2', '3', '4', '5', '6', '7', '8', '9']
}

/// Writing a subscript digit as its ASCII digit, or a superscript sign
/// (⁺, ⁻) as its ASCII sign, anywhere in a name leaves the comparison key
/// unchanged, so names that differ only that way share one entity.
pub proof fn lemma_script_notation_shares_key(name: Seq<char>, i: int, d: int)
    requires
        0 <= i < name.len(),
    ensures
        0 <= d < 10 && name[i] == subscript_digits()[d] ==> normalize_key(name.update(i, ascii_digits()[d]))
            == normalize_key(name),
        name[i] == '\u{207A}' ==> normalize_key(name.update(i, '+')) == normalize_key(name),
        name[i] == '\u{207B}' ==> normalize_key(name.update(i, '-')) == normalize_key(name),
{
    let ascii = if 0 <= d < 10 && name[i] == subscript_digits()[d] {
        ascii_digits()[d]
    } else if name[i] == '\u{207A}' {
        '+'
    } else {
        '-'
    };
    if (0 <= d < 10 && name[i] == subscript_digits()[d]) || name[i] == '\u{207A}' || name[i] == '\u{207B}' {
        assert(script_fold(ascii) == script_fold(name[i]));
        let other = name.update(i, ascii);
        assert(other.map_values(|c: char| script_fold(c)) =~= name.map_values(|c: char| script_fold(c)));
    }
}

fn fold_script_char(c: char) -> (r: char)
    ensures
        r == script_fold(c),
{
    if c == '\u{2080}' {
        '0'
    } else if c == '\u{2081}' {
        '1'
    } else if c == '\u{2082}' {
        '2'
    } else if c == '\u{2083}' {
        '3'
    } else if c == '\u{2084}' {
        '4'
    } else if c == '\u{2085}' {
        '5'
    } else if c == '\u{2086}' {
        '6'
    } else if c == '\u{2087}' {
        '7'
    } else if c == '\u{2088}' {
        '8'
    } else if c == '\u{2089}' {
        '9'
    } else if c == '\u{207A}' {
        '+'
    } else if c == '\u{207B}' {
        '-'
    } else {
        c
    }
}

/// Produces the comparison key used to deduplicate entity names.
pub fn normalize_for_comparison(name: &str) -> (r: String)
    ensures
        r@ == normalize_key(name@),
{
    let chars = chars_of(name);
    let mut mapped: Vec<char> = Vec::new();
    for i in 0..chars.len()
        invariant
            mapped@ == chars@.take(i as int).map_values(|c: char| script_fold(c)),
    {
        let c = fold_script_char(chars[i]);
        mapped.push(c);
        assert(chars@.take(i + 1).map_values(|c: char| script_fold(c)) =~= chars@.take(
            i as int,
        ).map_values(|c: char| script_fold(c)).push(script_fold(chars@[i as int])));
    }
    assert(chars@.take(chars@.len() as int) =~= chars@);
    let trimmed = trim_chars(&mapped);
    let collapsed = collapse_whitespace_chars(&trimmed);
    let joined = string_of_chars(&collapsed);
    to_lowercase(joined.as_str())
}

// =====================================================================
// Layer 2 — deterministic ID generation
// =====================================================================
/// Characters kept in an ID slug; everything else becomes `_`.
pub open spec fn slug_char(c: char) -> char {
    if is_alphanumeric_char(c) || c == '+' || c == '-' {
        c
    } else {
        '_'
    }
}

/// Collapses runs of `_` in a prefix; the flag records a trailing `_`.
pub open spec fn squeeze_state(s: Seq<char>) -> (Seq<char>, bool)
    decreases s.len(),
{
    if s.len() == 0 {
        (Seq::empty(), false)
    } else {
        let (out, prev) = squeeze_state(s.drop_last());
        let c = s.last();
        if c == '_' {
            if prev {
                (out, true)
            } else {
                (out.push(c), true)
            }
        } else {
            (out.push(c), false)
        }
    }
}

/// `s` without leading underscores.
pub open spec fn strip_us_start(s: Seq<char>) -> Seq<char>
    decreases s.len(),
{
    if s.len() > 0 && s[0] == '_' {
        strip_us_start(s.drop_first())
    } else {
        s
    }
}

/// `s` without trailing underscores.
pub open spec fn strip_us_end(s: Seq<char>) -> Seq<char>
    decreases s.len(),
{
    if s.len() > 0 && s.last() == '_' {
        strip_us_end(s.drop_last())
    } else {
        s
    }
}

/// The slug of a normalized key: mapped, runs of `_` collapsed, and
/// leading and trailing `_` removed.
pub open spec fn slug_of(key: Seq<char>) -> Seq<char> {
    strip_us_end(strip_us_start(squeeze_state(key.map_values(|c: char| slug_char(c))).0))
}

/// The preferred ID `entity-{slug}`, with `unnamed` for an empty slug.
pub open spec fn entity_id_of(key: Seq<char>) -> Seq<char> {
    let slug = slug_of(key);
    seq!['e', 'n', 't', 'i', 't', 'y', '-'] + if slug.len() == 0 {
        seq!['u', 'n', 'n', 'a', 'm', 'e', 'd']
    } else {
        slug
    }
}

fn slug_map(c: char) -> (r: char)
    ensures
        r == slug_char(c),
{
    if char_is_alphanumeric(c) || c == '+' || c == '-' {
        c
    } else {
        '_'
    }
}

proof fn lemma_strip_start_skip(s: Seq<char>, i: int)
    requires
        0 <= i < s.len(),
        s[i] == '_',
    ensures
        strip_us_start(s.skip(i)) == strip_us_start(s.skip(i + 1)),
{
    assert(s.skip(i).drop_first() =~= s.skip(i + 1));
}

proof fn lemma_strip_end_take(s: Seq<char>, j: int)
    requires
        0 < j <= s.len(),
        s[j - 1] == '_',
    ensures
        strip_us_end(s.take(j)) == strip_us_end(s.take(j - 1)),
{
    assert(s.take(j).drop_last() =~= s.take(j - 1));
}

/// Slug characters of a normalized key.
fn slug_chars(key: &Vec<char>) -> (r: Vec<char>)
    ensures
        r@ == slug_of(key@),
{
    let mut squeezed: Vec<char> = Vec::new();
    let mut prev = false;
    let n = key.len();
    assert(key@.take(0).map_values(|c: char| slug_char(c)) =~= Seq::<char>::empty());
    for i in 0..n
        invariant
            n == key@.len(),
            (squeezed@, prev) == squeeze_state(key@.take(i as int).map_values(|c: char| slug_char(c))),
    {
        let c = slug_map(key[i]);
        let ghost before = key@.take(i as int).map_values(|c: char| slug_char(c));
        assert(key@.take(i + 1).map_values(|c: char| slug_char(c)).drop_last() =~= before);
        assert(key@.take(i + 1).map_values(|c: char| slug_char(c)).last() == c);
        if c == '_' {
            if !prev {
                squeezed.push(c);
            }
            prev = true;
        } else {
            squeezed.push(c);
            prev = false;
        }
    }
    assert(key@.take(n as int) =~= key@);
    // strip leading underscores
    let mut start: usize = 0;
    assert(squeezed@.skip(0) =~= squeezed@);
    while start < squeezed.len() && squeezed[start] == '_'
        invariant
            start <= squeezed@.len(),
            strip_us_start(squeezed@) == strip_us_start(squeezed@.skip(start as int)),
        decreases squeezed@.len() - start,
    {
        proof {
            lemma_strip_start_skip(squeezed@, start as int);
        }
        start = start + 1;
    }
    let ghost t = squeezed@.skip(start as int);
    proof {
        if start < squeezed@.len() {
            assert(t[0] == squeezed@[start as int]);
        }
        assert(strip_us_start(t) == t);
        assert(t.take(t.len() as int) =~= t);
    }
    let mut end: usize = squeezed.len();
    while end > start && squeezed[end - 1] == '_'
        invariant
            start <= end <= squeezed@.len(),
            t == squeezed@.skip(start as int),
            strip_us_end(t) == strip_us_end(t.take(end - start)),
        decreases end,
    {
        proof {
            lemma_strip_end_take(t, end - start);
        }
        end = end - 1;
    }
    let mut out: Vec<char> = Vec::new();
    let mut k: usize = start;
    while k < end
        invariant
            start <= k <= end <= squeezed@.len(),
            out@ == squeezed@.subrange(start as int, k as int),
        decreases end - k,
    {
        out.push(squeezed[k]);
        assert(squeezed@.subrange(start as int, k + 1) =~= squeezed@.subrange(
            start as int,
            k as int,
        ).push(squeezed@[k as int]));
        k = k + 1;
    }
    proof {
        let u = t.take(end - start);
        assert(out@ =~= u);
        if u.len() > 0 {
            assert(u.last() == squeezed@[end - 1]);
        }
    }
    out
}

/// Generates the preferred `entity-{slug}` ID for a normalized key.
pub fn to_entity_id(normalized_key: &str) -> (r: String)
    ensures
        r@ == entity_id_of(normalized_key@),
{
    let key = chars_of(normalized_key);
    let slug = slug_chars(&key);
    let mut out = String::from_str("entity-");
    proof {
        reveal_strlit("entity-");
        reveal_strlit("unnamed");
    }
    if slug.len() == 0 {
        out.append("unnamed");
    } else {
        push_chars(&mut out, &slug);
    }
    assert(out@ =~= entity_id_of(normalized_key@));
    out
}

/// FNV-1a over a byte sequence.
pub open spec fn fnv1a(bytes: Seq<u8>) -> u64
    decreases bytes.len(),
{
    if bytes.len() == 0 {
        0xcbf29ce484222325u64
    } else {
        vstd::wrapping::u64_specs::wrapping_mul(
            fnv1a(bytes.drop_last()) ^ (bytes.last() as u64),
            0x100000001b3u64,
        )
    }
}

/// Stable FNV-1a hash of the UTF-8 bytes of `value`.
pub fn stable_entity_key_hash(value: &str) -> (h: u64)
    ensures
        h == fnv1a(encode_utf8(value@)),
{
    let bytes = value.as_bytes();
    let mut hash: u64 = 0xcbf29ce484222325u64;
    let n = bytes.len();
    assert(bytes@.take(0) =~= Seq::<u8>::empty());
    for i in 0..n
        invariant
            n == bytes@.len(),
            hash == fnv1a(bytes@.take(i as int)),
    {
        assert(bytes@.take(i + 1).drop_last() =~= bytes@.take(i as int));
        hash = (hash ^ (bytes[i] as u64)).wrapping_mul(0x100000001b3u64);
    }
    assert(bytes@.take(n as int) =~= bytes@);
    hash
}

/// `h_{d}`: a hashed ID followed by `_` and a decimal discriminator.
pub open spec fn suffixed(h: Seq<char>, d: nat) -> Seq<char> {
    h + seq!['_'] + decimal(d)
}

/// `d` is the smallest discriminator of at least 2 whose suffixed ID is free.
pub open spec fn is_first_free(h: Seq<char>, used: Set<Seq<char>>, d: nat) -> bool {
    &&& d >= 2
    &&& !used.contains(suffixed(h, d))
    &&& forall|e: nat| 2 <= e < d ==> used.contains(#[trigger] suffixed(h, e))
}

/// The smallest free discriminator of at least 2.
pub open spec fn first_free(h: Seq<char>, used: Set<Seq<char>>) -> nat {
    choose|d: nat| is_first_free(h, used, d)
}

/// The hashed alternative `{base}_{hash:016x}`.
pub open spec fn hashed_id(key: Seq<char>) -> Seq<char> {
    entity_id_of(key) + seq!['_'] + hex_digits(fnv1a(encode_utf8(key)) as nat, 16)
}

/// The ID allocated for `key` given the IDs already in use.
pub open spec fn alloc_id(key: Seq<char>, used: Set<Seq<char>>) -> Seq<char> {
    let base = entity_id_of(key);
    if !used.contains(base) {
        base
    } else if !used.contains(hashed_id(key)) {
        hashed_id(key)
    } else {
        suffixed(hashed_id(key), first_free(hashed_id(key), used))
    }
}

proof fn lemma_digit_injective(a: nat, b: nat)
    requires
        a < 10,
        b < 10,
        crate::text::digit_char(a) == crate::text::digit_char(b),
    ensures
        a == b,
{
    assert(((48 + a) as char) as int == 48 + a);
    assert(((48 + b) as char) as int == 48 + b);
}

proof fn lemma_decimal_nonempty(n: nat)
    ensures
        decimal(n).len() >= 1,
        n >= 10 ==> decimal(n).len() >= 2,
    decreases n,
{
    if n >= 10 {
        lemma_decimal_nonempty(n / 10);
    }
}

/// Decimal rendering is injective.
pub proof fn lemma_decimal_injective(a: nat, b: nat)
    requires
        decimal(a) == decimal(b),
    ensures
        a == b,
    decreases a,
{
    lemma_decimal_nonempty(a);
    lemma_decimal_nonempty(b);
    if a < 10 && b < 10 {
        assert(decimal(a) == seq![crate::text::digit_char(a)]);
        assert(decimal(b) == seq![crate::text::digit_char(b)]);
        assert(decimal(a)[0] == decimal(b)[0]);
        assert(seq![crate::text::digit_char(a)][0] == crate::text::digit_char(a));
        assert(crate::text::digit_char(a) == crate::text::digit_char(b));
        lemma_digit_injective(a, b);
    } else if a >= 10 && b >= 10 {
        assert(decimal(a) == decimal(a / 10).push(crate::text::digit_char(a % 10)));
        assert(decimal(b) == decimal(b / 10).push(crate::text::digit_char(b % 10)));
        assert(decimal(a).last() == crate::text::digit_char(a % 10));
        assert(decimal(b).last() == crate::text::digit_char(b % 10));
        assert(decimal(a).last() == decimal(b).last());
        lemma_digit_injective(a % 10, b % 10);
        assert(decimal(a).drop_last() =~= decimal(a / 10));
        assert(decimal(b).drop_last() =~= decimal(b / 10));
        lemma_decimal_injective(a / 10, b / 10);
        assert(a == (a / 10) * 10 + a % 10);
        assert(b == (b / 10) * 10 + b % 10);
    }
}

proof fn lemma_suffixed_injective(h: Seq<char>, a: nat, b: nat)
    requires
        suffixed(h, a) == suffixed(h, b),
    ensures
        a == b,
{
    let pa = h + seq!['_'];
    assert(suffixed(h, a).subrange(pa.len() as int, suffixed(h, a).len() as int) =~= decimal(a));
    assert(suffixed(h, b).subrange(pa.len() as int, suffixed(h, b).len() as int) =~= decimal(b));
    lemma_decimal_injective(a, b);
}

/// Pigeonhole: at most `used.len()` consecutive discriminators are taken.
proof fn lemma_taken_bound(h: Seq<char>, used: Set<Seq<char>>, m: nat)
    requires
        used.finite(),
        m >= 2,
        forall|e: nat| 2 <= e < m ==> used.contains(#[trigger] suffixed(h, e)),
    ensures
        m - 2 <= used.len(),
{
    let f = |i: int| suffixed(h, i as nat);
    let x = vstd::set_lib::set_int_range(2, m as int);
    vstd::set_lib::lemma_int_range(2, m as int);
    let y = x.map(f);
    assert forall|i: int, j: int| x.contains(i) && x.contains(j) && f(i) == f(j) implies i
        == j by {
        lemma_suffixed_injective(h, i as nat, j as nat);
    }
    assert(vstd::relations::injective_on(f, x));
    vstd::set_lib::lemma_map_size(x, y, f);
    assert forall|s: Seq<char>| y.contains(s) implies used.contains(s) by {
        let i = choose|i: int| x.contains(i) && f(i) == s;
        assert(used.contains(suffixed(h, i as nat)));
    }
    vstd::set_lib::lemma_len_subset(y, used);
}

/// Pigeonhole with two further used IDs that are shorter than any
/// suffixed one: then at most `used.len()` discriminators are taken.
proof fn lemma_taken_bound_with(h: Seq<char>, used: Set<Seq<char>>, m: nat, a: Seq<char>, b: Seq<char>)
    requires
        used.finite(),
        m >= 2,
        forall|e: nat| 2 <= e < m ==> used.contains(#[trigger] suffixed(h, e)),
        used.contains(a),
        used.contains(b),
        a != b,
        a.len() <= h.len(),
        b.len() <= h.len(),
    ensures
        m <= used.len(),
{
    let f = |i: int| suffixed(h, i as nat);
    let x = vstd::set_lib::set_int_range(2, m as int);
    vstd::set_lib::lemma_int_range(2, m as int);
    let y = x.map(f);
    assert forall|i: int, j: int| x.contains(i) && x.contains(j) && f(i) == f(j) implies i
        == j by {
        lemma_suffixed_injective(h, i as nat, j as nat);
    }
    assert(vstd::relations::injective_on(f, x));
    vstd::set_lib::lemma_map_size(x, y, f);
    let z = y.insert(a).insert(b);
    assert forall|s: Seq<char>| z.contains(s) implies used.contains(s) by {
        if y.contains(s) {
            let i = choose|i: int| x.contains(i) && f(i) == s;
            assert(used.contains(suffixed(h, i as nat)));
        }
    }
    assert(!y.contains(a)) by {
        if y.contains(a) {
            let i = choose|i: int| x.contains(i) && f(i) == a;
            assert(suffixed(h, i as nat).len() > h.len());
        }
    }
    assert(!y.insert(a).contains(b)) by {
        if y.contains(b) {
            let i = choose|i: int| x.contains(i) && f(i) == b;
            assert(suffixed(h, i as nat).len() > h.len());
        }
    }
    vstd::set_lib::lemma_len_subset(z, used);
}

/// Searches upward from `d` for the first free discriminator.
proof fn lemma_free_from(h: Seq<char>, used: Set<Seq<char>>, d: nat) -> (r: nat)
    requires
        used.finite(),
        d >= 2,
        forall|e: nat| 2 <= e < d ==> used.contains(#[trigger] suffixed(h, e)),
    ensures
        is_first_free(h, used, r),
    decreases used.len() + 2 - d,
{
    if used.contains(suffixed(h, d)) {
        lemma_taken_bound(h, used, d + 1);
        lemma_free_from(h, used, d + 1)
    } else {
        d
    }
}

/// A free discriminator exists for every finite set of used IDs.
pub proof fn lemma_first_free_exists(h: Seq<char>, used: Set<Seq<char>>)
    requires
        used.finite(),
    ensures
        is_first_free(h, used, first_free(h, used)),
{
    let d = lemma_free_from(h, used, 2);
    assert(is_first_free(h, used, d));
}

/// The first free discriminator is unique.
pub proof fn lemma_first_free_unique(h: Seq<char>, used: Set<Seq<char>>, d: nat)
    requires
        used.finite(),
        is_first_free(h, used, d),
    ensures
        first_free(h, used) == d,
{
    lemma_first_free_exists(h, used);
    let f = first_free(h, used);
    if f < d {
        assert(used.contains(suffixed(h, f)));
    } else if d < f {
        assert(used.contains(suffixed(h, d)));
    }
}

/// The allocated ID is never one already in use.
pub proof fn lemma_alloc_id_fresh(key: Seq<char>, used: Set<Seq<char>>)
    requires
        used.finite(),
    ensures
        !used.contains(alloc_id(key, used)),
{
    if used.contains(entity_id_of(key)) && used.contains(hashed_id(key)) {
        lemma_first_free_exists(hashed_id(key), used);
    }
}

/// Allocates a graph-unique entity ID, records it as used, and returns it.
pub fn allocate_entity_id(normalized_key: &str, used_ids: &mut Vec<String>) -> (r: String)
    ensures
        r@ == alloc_id(normalized_key@, strs(old(used_ids)@).to_set()),
        strs(final(used_ids)@) == strs(old(used_ids)@).push(r@),
{
    let ghost used = strs(used_ids@).to_set();
    let base_id = to_entity_id(normalized_key);
    if !contains_str(used_ids, base_id.as_str()) {
        used_ids.push(base_id.clone());
        assert(strs(used_ids@) =~= strs(old(used_ids)@).push(base_id@));
        return base_id;
    }
    let key_hash = stable_entity_key_hash(normalized_key);
    let mut hashed = base_id;
    crate::text::push_char(&mut hashed, '_');
    push_hex(&mut hashed, key_hash, 16);
    assert(hashed@ =~= hashed_id(normalized_key@));
    if !contains_str(used_ids, hashed.as_str()) {
        used_ids.push(hashed.clone());
        assert(strs(used_ids@) =~= strs(old(used_ids)@).push(hashed@));
        return hashed;
    }
    let mut discriminator: usize = 2;
    let total = used_ids.len();
    proof {
        strs(used_ids@).lemma_cardinality_of_set();
        assert(hashed@.len() > entity_id_of(normalized_key@).len());
        vstd::set_lib::lemma_len_subset(
            Set::empty().insert(entity_id_of(normalized_key@)).insert(hashed@),
            used,
        );
    }
    loop
        invariant
            strs(used_ids@) == strs(old(used_ids)@),
            used == strs(used_ids@).to_set(),
            hashed@ == hashed_id(normalized_key@),
            hashed@.len() > entity_id_of(normalized_key@).len(),
            used.contains(entity_id_of(normalized_key@)),
            used.contains(hashed@),
            total == used_ids@.len(),
            2 <= discriminator <= total,
            forall|e: nat| 2 <= e < discriminator ==> used.contains(#[trigger] suffixed(hashed@, e)),
        decreases used_ids@.len() - discriminator,
    {
        let mut candidate = hashed.clone();
        crate::text::push_char(&mut candidate, '_');
        push_decimal(&mut candidate, discriminator as u64);
        assert(candidate@ =~= suffixed(hashed@, discriminator as nat));
        if !contains_str(used_ids, candidate.as_str()) {
            proof {
                lemma_first_free_unique(hashed@, used, discriminator as nat);
            }
            used_ids.push(candidate.clone());
            assert(strs(used_ids@) =~= strs(old(used_ids)@).push(candidate@));
            return candidate;
        }
        proof {
            strs(used_ids@).lemma_cardinality_of_set();
            assert(used.contains(suffixed(hashed@, discriminator as nat)));
            assert(forall|e: nat| 2 <= e < discriminator + 1 ==> used.contains(#[trigger] suffixed(hashed@, e)));
            lemma_taken_bound_with(
                hashed@,
                used,
                (discriminator + 1) as nat,
                entity_id_of(normalized_key@),
                hashed@,
            );
            assert(strs(used_ids@).len() == used_ids@.len());
        }
        discriminator = discriminator + 1;
    }
}

} // verus!
