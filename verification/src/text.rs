//! Character-level string helpers shared by the graph, prompt, and LLM modules.
//!
//! Every helper works on the character view (`Seq<char>`) of a string.
//! White space and control characters are the short fixed sets that `std`
//! documents; the alphanumeric property and case mapping come from `std`
//! and are named (not re-implemented) so that callers can state exactly
//! which property a result depends on.
use vstd::prelude::*;

verus! {

// =====================================================================
// Character classes
// =====================================================================
/// The Unicode `White_Space` property, which `char::is_whitespace` tests:
/// U+0009 to U+000D, U+0020, U+0085, U+00A0, U+1680, U+2000 to U+200A,
/// U+2028, U+2029, U+202F, U+205F and U+3000.
pub open spec fn is_white_space(c: char) -> bool {
    let v = c as u32;
    ||| 0x9 <= v <= 0xd
    ||| v == 0x20
    ||| v == 0x85
    ||| v == 0xa0
    ||| v == 0x1680
    ||| 0x2000 <= v <= 0x200a
    ||| v == 0x2028
    ||| v == 0x2029
    ||| v == 0x202f
    ||| v == 0x205f
    ||| v == 0x3000
}

/// The Unicode `Alphabetic`-or-`Numeric` property of a character.
pub uninterp spec fn is_alphanumeric_char(c: char) -> bool;

/// The general category `Cc`, which `char::is_control` tests: U+0000 to
/// U+001F and U+007F to U+009F.
pub open spec fn is_control_char(c: char) -> bool {
    let v = c as u32;
    v <= 0x1f || (0x7f <= v <= 0x9f)
}

/// Full Unicode lower-case mapping of a character sequence.
pub uninterp spec fn lowercase(s: Seq<char>) -> Seq<char>;

/// Whether `c` is white space, as `char::is_whitespace` decides.
pub(crate) fn char_is_whitespace(c: char) -> (r: bool)
    ensures
        r == is_white_space(c),
{
    let v = c as u32;
    (0x9 <= v && v <= 0xd) || v == 0x20 || v == 0x85 || v == 0xa0 || v == 0x1680 || (0x2000 <= v
        && v <= 0x200a) || v == 0x2028 || v == 0x2029 || v == 0x202f || v == 0x205f || v == 0x3000
}

/// ASCII lower-case of one character; other characters are unchanged.
pub open spec fn ascii_lower(c: char) -> char {
    if 'A' <= c <= 'Z' {
        ((c as u32) + 32) as char
    } else {
        c
    }
}

/// ASCII lower-case of a text.
pub open spec fn ascii_lowercase(s: Seq<char>) -> Seq<char> {
    s.map_values(|c: char| ascii_lower(c))
}

/// Every character of the text is ASCII.
pub open spec fn all_ascii(s: Seq<char>) -> bool {
    forall|i: int| 0 <= i < s.len() ==> (s[i] as u32) < 0x80
}

/// Wraps `char::is_alphanumeric`: true exactly for characters that are
/// Unicode alphabetic or numeric; among ASCII characters those are the
/// letters and the digits.
#[verifier::external_body]
pub(crate) fn char_is_alphanumeric(c: char) -> (r: bool)
    ensures
        r == is_alphanumeric_char(c),
        (c as u32) < 0x80 ==> (r <==> ('a' <= c <= 'z' || 'A' <= c <= 'Z' || '0' <= c <= '9')),
{
    c.is_alphanumeric()
}

/// Whether `c` is a control character, as `char::is_control` decides.
pub(crate) fn char_is_control(c: char) -> (r: bool)
    ensures
        r == is_control_char(c),
{
    let v = c as u32;
    v <= 0x1f || (0x7f <= v && v <= 0x9f)
}

/// Wraps `str::to_lowercase`: the full Unicode lower-case mapping, which is
/// a function of the input characters alone; on ASCII text it maps `A`-`Z`
/// to `a`-`z` and keeps every other character.
#[verifier::external_body]
pub(crate) fn to_lowercase(s: &str) -> (r: String)
    ensures
        r@ == lowercase(s@),
        all_ascii(s@) ==> r@ == ascii_lowercase(s@),
{
    s.to_lowercase()
}

/// Wraps `String::push`: appends one character.
#[verifier::external_body]
pub(crate) fn push_char(s: &mut String, c: char)
    ensures
        final(s)@ == old(s)@.push(c),
{
    s.push(c)
}

// =====================================================================
// Lists of strings
// =====================================================================
/// Character views of a list of strings.
pub open spec fn strs(v: Seq<String>) -> Seq<Seq<char>> {
    v.map_values(|s: String| s@)
}

/// Whether some string of `v` has the characters of `s`.
pub fn contains_str(v: &Vec<String>, s: &str) -> (r: bool)
    ensures
        r == strs(v@).contains(s@),
{
    let mut i: usize = 0;
    while i < v.len()
        invariant
            i <= v@.len(),
            forall|k: int| 0 <= k < i ==> v@[k]@ != s@,
        decreases v@.len() - i,
    {
        if str_eq(v[i].as_str(), s) {
            assert(strs(v@)[i as int] == s@);
            return true;
        }
        i = i + 1;
    }
    proof {
        if strs(v@).contains(s@) {
            let k = choose|k: int| 0 <= k < strs(v@).len() && strs(v@)[k] == s@;
            assert(v@[k]@ == s@);
        }
    }
    false
}

// =====================================================================
// Conversions between strings and character vectors
// =====================================================================
/// Copies the characters of a string slice into a vector.
pub fn chars_of(s: &str) -> (r: Vec<char>)
    ensures
        r@ == s@,
{
    let mut out: Vec<char> = Vec::new();
    for c in it: s.chars()
        invariant
            out@ == it.seq().take(it.index() as int),
    {
        out.push(c);
    }
    out
}

/// Appends every character of `chars` to `out`.
pub fn push_chars(out: &mut String, chars: &Vec<char>)
    ensures
        final(out)@ == old(out)@ + chars@,
{
    let ghost start = out@;
    let n = chars.len();
    for i in 0..n
        invariant
            n == chars@.len(),
            out@ == start + chars@.take(i as int),
    {
        push_char(out, chars[i]);
        assert(chars@.take(i + 1) =~= chars@.take(i as int).push(chars@[i as int]));
    }
    assert(chars@.take(n as int) =~= chars@);
}

/// Builds a string holding exactly the characters of `chars`.
pub fn string_of_chars(chars: &Vec<char>) -> (r: String)
    ensures
        r@ == chars@,
{
    let mut out = String::new();
    push_chars(&mut out, chars);
    out
}

/// Copies a string slice into an owned string.
pub fn owned(s: &str) -> (r: String)
    ensures
        r@ == s@,
{
    String::from_str(s)
}

/// Concatenates two string slices.
pub fn concat2(a: &str, b: &str) -> (r: String)
    ensures
        r@ == a@ + b@,
{
    let mut out = String::from_str(a);
    out.append(b);
    out
}

// =====================================================================
// Whitespace trimming and collapsing
// =====================================================================
/// `s` without its leading white-space characters.
pub open spec fn trim_start_seq(s: Seq<char>) -> Seq<char>
    decreases s.len(),
{
    if s.len() > 0 && is_white_space(s[0]) {
        trim_start_seq(s.drop_first())
    } else {
        s
    }
}

/// `s` without its trailing white-space characters.
pub open spec fn trim_end_seq(s: Seq<char>) -> Seq<char>
    decreases s.len(),
{
    if s.len() > 0 && is_white_space(s.last()) {
        trim_end_seq(s.drop_last())
    } else {
        s
    }
}

/// `s` without leading and trailing white space (`str::trim`).
pub open spec fn trim_seq(s: Seq<char>) -> Seq<char> {
    trim_end_seq(trim_start_seq(s))
}

/// Every character of `s` is white space (so `s.trim()` is empty).
pub open spec fn is_blank_seq(s: Seq<char>) -> bool {
    forall|i: int| 0 <= i < s.len() ==> is_white_space(#[trigger] s[i])
}

proof fn lemma_trim_start_skip(s: Seq<char>, i: int)
    requires
        0 <= i < s.len(),
        is_white_space(s[i]),
    ensures
        trim_start_seq(s.skip(i)) == trim_start_seq(s.skip(i + 1)),
{
    assert(s.skip(i).drop_first() =~= s.skip(i + 1));
}

proof fn lemma_trim_end_take(s: Seq<char>, j: int)
    requires
        0 < j <= s.len(),
        is_white_space(s[j - 1]),
    ensures
        trim_end_seq(s.take(j)) == trim_end_seq(s.take(j - 1)),
{
    assert(s.take(j).drop_last() =~= s.take(j - 1));
}

/// Index of the first non-white-space character (or the length).
fn first_non_space(s: &Vec<char>) -> (r: usize)
    ensures
        r <= s@.len(),
        trim_start_seq(s@) == s@.skip(r as int),
        forall|k: int| 0 <= k < r ==> is_white_space(#[trigger] s@[k]),
        r < s@.len() ==> !is_white_space(s@[r as int]),
{
    let mut i: usize = 0;
    assert(s@.skip(0) =~= s@);
    while i < s.len() && char_is_whitespace(s[i])
        invariant
            i <= s@.len(),
            trim_start_seq(s@) == trim_start_seq(s@.skip(i as int)),
            forall|k: int| 0 <= k < i ==> is_white_space(#[trigger] s@[k]),
        decreases s@.len() - i,
    {
        proof {
            lemma_trim_start_skip(s@, i as int);
        }
        i = i + 1;
    }
    proof {
        if i < s@.len() {
            assert(s@.skip(i as int)[0] == s@[i as int]);
        }
    }
    i
}

/// Characters of `s` without leading and trailing white space.
pub fn trim_chars(s: &Vec<char>) -> (r: Vec<char>)
    ensures
        r@ == trim_seq(s@),
{
    let start = first_non_space(s);
    let mut end: usize = s.len();
    let ghost t = s@.skip(start as int);
    assert(t.take(t.len() as int) =~= t);
    while end > start && char_is_whitespace(s[end - 1])
        invariant
            start <= end <= s@.len(),
            t == s@.skip(start as int),
            trim_end_seq(t) == trim_end_seq(t.take(end - start)),
        decreases end,
    {
        proof {
            lemma_trim_end_take(t, end - start);
        }
        end = end - 1;
    }
    let mut out: Vec<char> = Vec::new();
    let mut k: usize = start;
    while k < end
        invariant
            start <= k <= end <= s@.len(),
            out@ == s@.subrange(start as int, k as int),
        decreases end - k,
    {
        out.push(s[k]);
        assert(s@.subrange(start as int, k + 1) =~= s@.subrange(start as int, k as int).push(
            s@[k as int],
        ));
        k = k + 1;
    }
    proof {
        let u = t.take(end - start);
        assert(out@ =~= u);
        if u.len() > 0 {
            assert(u.last() == s@[end - 1]);
        }
    }
    out
}

/// `str::trim` followed by an owned copy.
pub fn trim(s: &str) -> (r: String)
    ensures
        r@ == trim_seq(s@),
{
    let chars = chars_of(s);
    let t = trim_chars(&chars);
    string_of_chars(&t)
}

proof fn lemma_trim_start_blank(s: Seq<char>)
    ensures
        (trim_start_seq(s).len() == 0) == is_blank_seq(s),
        trim_start_seq(s).len() > 0 ==> !is_white_space(trim_start_seq(s)[0]),
    decreases s.len(),
{
    if s.len() > 0 && is_white_space(s[0]) {
        lemma_trim_start_blank(s.drop_first());
        if is_blank_seq(s.drop_first()) {
            assert forall|i: int| 0 <= i < s.len() implies is_white_space(#[trigger] s[i]) by {
                if i > 0 {
                    assert(s[i] == s.drop_first()[i - 1]);
                }
            }
        }
        if is_blank_seq(s) {
            assert forall|i: int| 0 <= i < s.drop_first().len() implies is_white_space(
                #[trigger] s.drop_first()[i],
            ) by {
                assert(s.drop_first()[i] == s[i + 1]);
            }
        }
    } else if s.len() > 0 {
        assert(!is_white_space(s[0]));
    }
}

proof fn lemma_trim_end_empty(s: Seq<char>)
    ensures
        (s.len() > 0 && !is_white_space(s[0])) ==> trim_end_seq(s).len() > 0,
        trim_end_seq(s).len() > 0 ==> !is_white_space(trim_end_seq(s).last()),
        trim_end_seq(s).len() > 0 ==> trim_end_seq(s)[0] == s[0],
    decreases s.len(),
{
    if s.len() > 0 && is_white_space(s.last()) {
        lemma_trim_end_empty(s.drop_last());
        if s.len() > 1 {
            assert(s.drop_last()[0] == s[0]);
        }
    }
}

/// Trimming twice is trimming once.
pub proof fn lemma_trim_idempotent(s: Seq<char>)
    ensures
        trim_seq(trim_seq(s)) == trim_seq(s),
{
    let x = trim_start_seq(s);
    let t = trim_end_seq(x);
    lemma_trim_start_blank(s);
    lemma_trim_end_empty(x);
    if t.len() > 0 {
        assert(!is_white_space(t[0]));
        assert(trim_start_seq(t) == t);
        assert(!is_white_space(t.last()));
        assert(trim_end_seq(t) == t);
    } else {
        assert(trim_start_seq(t) == t);
        assert(trim_end_seq(t) == t);
    }
}

/// Trimming leaves nothing exactly when every character is white space.
pub proof fn lemma_trim_empty_iff_blank(s: Seq<char>)
    ensures
        (trim_seq(s).len() == 0) == is_blank_seq(s),
{
    lemma_trim_start_blank(s);
    lemma_trim_end_empty(trim_start_seq(s));
}

/// True when `s.trim()` would be empty.
pub fn is_blank(s: &str) -> (r: bool)
    ensures
        r == is_blank_seq(s@),
        r == (trim_seq(s@).len() == 0),
{
    let chars = chars_of(s);
    let i = first_non_space(&chars);
    proof {
        lemma_trim_empty_iff_blank(s@);
        if i < chars@.len() {
            assert(!is_white_space(chars@[i as int]));
        }
    }
    i == chars.len()
}

/// State of the single-space join of white-space-separated words of a
/// prefix: the output so far and whether a separator is pending.
pub open spec fn collapse_state(s: Seq<char>) -> (Seq<char>, bool)
    decreases s.len(),
{
    if s.len() == 0 {
        (Seq::empty(), false)
    } else {
        let (out, pending) = collapse_state(s.drop_last());
        let c = s.last();
        if is_white_space(c) {
            (out, out.len() > 0)
        } else if pending {
            (out.push(' ').push(c), false)
        } else {
            (out.push(c), false)
        }
    }
}

/// The words of `s` (maximal runs of non-white-space characters) joined by
/// single spaces, i.e. `s.split_whitespace().collect::<Vec<_>>().join(" ")`.
pub open spec fn collapse_ws(s: Seq<char>) -> Seq<char> {
    collapse_state(s).0
}

/// Joins the white-space separated words of `s` with single spaces.
pub fn collapse_whitespace_chars(s: &Vec<char>) -> (r: Vec<char>)
    ensures
        r@ == collapse_ws(s@),
{
    let mut out: Vec<char> = Vec::new();
    let mut pending = false;
    let n = s.len();
    assert(s@.take(0) =~= Seq::<char>::empty());
    for i in 0..n
        invariant
            n == s@.len(),
            (out@, pending) == collapse_state(s@.take(i as int)),
    {
        let c = s[i];
        assert(s@.take(i + 1).drop_last() =~= s@.take(i as int));
        if char_is_whitespace(c) {
            if out.len() > 0 {
                pending = true;
            }
        } else {
            if pending {
                out.push(' ');
            }
            out.push(c);
            pending = false;
        }
    }
    assert(s@.take(n as int) =~= s@);
    out
}

// =====================================================================
// Decimal and hexadecimal rendering
// =====================================================================
/// The ASCII digit for `d < 16` (lower-case letters above nine).
pub open spec fn digit_char(d: nat) -> char {
    if d < 10 {
        (48 + d) as char
    } else {
        (87 + d) as char
    }
}

/// Decimal rendering of a natural number without leading zeros.
pub open spec fn decimal(n: nat) -> Seq<char>
    decreases n,
{
    if n < 10 {
        seq![digit_char(n)]
    } else {
        decimal(n / 10).push(digit_char(n % 10))
    }
}

/// The last `k` hexadecimal digits of `n`, zero padded.
pub open spec fn hex_digits(n: nat, k: nat) -> Seq<char>
    decreases k,
{
    if k == 0 {
        Seq::empty()
    } else {
        hex_digits(n / 16, (k - 1) as nat).push(digit_char(n % 16))
    }
}

fn digit(d: u64) -> (c: char)
    requires
        d < 16,
    ensures
        c == digit_char(d as nat),
{
    if d < 10 {
        ((48 + d) as u8) as char
    } else {
        ((87 + d) as u8) as char
    }
}

/// Appends the decimal rendering of `n` to `out`.
pub fn push_decimal(out: &mut String, n: u64)
    ensures
        final(out)@ == old(out)@ + decimal(n as nat),
    decreases n,
{
    let ghost start = out@;
    if n >= 10 {
        push_decimal(out, n / 10);
    }
    push_char(out, digit(n % 10));
    assert(out@ =~= start + decimal(n as nat));
}

/// Decimal rendering of `n` (`n.to_string()`).
pub fn decimal_string(n: u64) -> (r: String)
    ensures
        r@ == decimal(n as nat),
{
    let mut out = String::new();
    push_decimal(&mut out, n);
    assert(out@ =~= decimal(n as nat));
    out
}

/// Appends the last `k` hexadecimal digits of `n`, zero padded.
pub fn push_hex(out: &mut String, n: u64, k: u64)
    ensures
        final(out)@ == old(out)@ + hex_digits(n as nat, k as nat),
    decreases k,
{
    let ghost start = out@;
    if k > 0 {
        push_hex(out, n / 16, k - 1);
        push_char(out, digit(n % 16));
    }
    assert(out@ =~= start + hex_digits(n as nat, k as nat));
}

// =====================================================================
// Lexicographic order on character sequences
// =====================================================================
/// Strict lexicographic order by code point, which coincides with the
/// byte-wise order of the UTF-8 encodings used by `String`'s `Ord`.
pub open spec fn seq_lt(a: Seq<char>, b: Seq<char>) -> bool
    decreases a.len(),
{
    if a.len() == 0 {
        b.len() > 0
    } else if b.len() == 0 {
        false
    } else if a[0] == b[0] {
        seq_lt(a.drop_first(), b.drop_first())
    } else {
        a[0] < b[0]
    }
}

/// `a <= b` in the lexicographic order.
pub open spec fn seq_le(a: Seq<char>, b: Seq<char>) -> bool {
    a == b || seq_lt(a, b)
}

/// The lexicographic order is irreflexive.
pub proof fn lemma_seq_lt_irreflexive(a: Seq<char>)
    ensures
        !seq_lt(a, a),
    decreases a.len(),
{
    if a.len() > 0 {
        lemma_seq_lt_irreflexive(a.drop_first());
    }
}

/// The lexicographic order is transitive.
pub proof fn lemma_seq_lt_transitive(a: Seq<char>, b: Seq<char>, c: Seq<char>)
    requires
        seq_lt(a, b),
        seq_lt(b, c),
    ensures
        seq_lt(a, c),
    decreases a.len(),
{
    if a.len() > 0 && b.len() > 0 && c.len() > 0 {
        if a[0] == b[0] && b[0] == c[0] {
            lemma_seq_lt_transitive(a.drop_first(), b.drop_first(), c.drop_first());
        }
    }
}

/// Any two distinct sequences are ordered one way or the other, and never
/// both ways.
pub proof fn lemma_seq_lt_total(a: Seq<char>, b: Seq<char>)
    ensures
        a != b ==> (seq_lt(a, b) || seq_lt(b, a)),
        !(seq_lt(a, b) && seq_lt(b, a)),
    decreases a.len(),
{
    if a.len() > 0 && b.len() > 0 {
        lemma_seq_lt_total(a.drop_first(), b.drop_first());
        if a[0] == b[0] && a.drop_first() == b.drop_first() {
            assert(a =~= seq![a[0]] + a.drop_first());
            assert(b =~= seq![b[0]] + b.drop_first());
        }
    } else if a.len() == 0 && b.len() == 0 {
        assert(a =~= b);
    }
}

/// Result of comparing two keys.
#[derive(Debug, Clone, Copy, PartialEq, Eq)]
pub enum Order {
    Less,
    Equal,
    Greater,
}

/// The order relation between two character sequences.
pub open spec fn seq_order(a: Seq<char>, b: Seq<char>) -> Order {
    if a == b {
        Order::Equal
    } else if seq_lt(a, b) {
        Order::Less
    } else {
        Order::Greater
    }
}

proof fn lemma_seq_lt_skip(a: Seq<char>, b: Seq<char>, i: int)
    requires
        0 <= i < a.len(),
        i < b.len(),
        a[i] == b[i],
    ensures
        seq_lt(a.skip(i), b.skip(i)) == seq_lt(a.skip(i + 1), b.skip(i + 1)),
{
    assert(a.skip(i).drop_first() =~= a.skip(i + 1));
    assert(b.skip(i).drop_first() =~= b.skip(i + 1));
}

/// Lexicographic comparison of two character vectors.
pub fn compare_chars(a: &Vec<char>, b: &Vec<char>) -> (r: Order)
    ensures
        r == seq_order(a@, b@),
{
    let mut i: usize = 0;
    assert(a@.skip(0) =~= a@);
    assert(b@.skip(0) =~= b@);
    while i < a.len() && i < b.len() && a[i] == b[i]
        invariant
            i <= a@.len(),
            i <= b@.len(),
            a@.take(i as int) == b@.take(i as int),
            seq_lt(a@, b@) == seq_lt(a@.skip(i as int), b@.skip(i as int)),
            seq_lt(b@, a@) == seq_lt(b@.skip(i as int), a@.skip(i as int)),
        decreases a@.len() - i,
    {
        proof {
            lemma_seq_lt_skip(a@, b@, i as int);
            lemma_seq_lt_skip(b@, a@, i as int);
            assert(a@.take(i + 1) =~= a@.take(i as int).push(a@[i as int]));
            assert(b@.take(i + 1) =~= b@.take(i as int).push(b@[i as int]));
        }
        i = i + 1;
    }
    proof {
        lemma_seq_lt_total(a@, b@);
        lemma_seq_lt_irreflexive(a@);
    }
    if i == a.len() && i == b.len() {
        assert(a@ =~= a@.take(i as int));
        assert(b@ =~= b@.take(i as int));
        Order::Equal
    } else if i == a.len() {
        assert(a@.skip(i as int).len() == 0);
        assert(a@ != b@);
        Order::Less
    } else if i == b.len() {
        assert(b@.skip(i as int).len() == 0);
        assert(a@ != b@);
        Order::Greater
    } else {
        assert(a@.skip(i as int)[0] == a@[i as int]);
        assert(b@.skip(i as int)[0] == b@[i as int]);
        assert(a@ != b@);
        if a[i] < b[i] {
            Order::Less
        } else {
            Order::Greater
        }
    }
}

/// Lexicographic comparison of two strings by code point.
pub fn compare_str(a: &str, b: &str) -> (r: Order)
    ensures
        r == seq_order(a@, b@),
{
    let ca = chars_of(a);
    let cb = chars_of(b);
    compare_chars(&ca, &cb)
}

/// String equality by character content.
pub fn str_eq(a: &str, b: &str) -> (r: bool)
    ensures
        r == (a@ == b@),
{
    let ca = chars_of(a);
    let cb = chars_of(b);
    match compare_chars(&ca, &cb) {
        Order::Equal => true,
        _ => false,
    }
}

// =====================================================================
// Character-bounded prefixes
// =====================================================================
/// The first `n` characters of `s` (all of `s` when shorter).
pub fn take_chars(s: &str, n: usize) -> (r: String)
    ensures
        r@ == s@.take(if n < s@.len() { n as int } else { s@.len() as int }),
{
    let len = s.unicode_len();
    let k = if n < len {
        n
    } else {
        len
    };
    String::from_str(s.substring_char(0, k))
}


/// Whether `a` sorts strictly before `b` by code point.
pub fn str_lt(a: &str, b: &str) -> (r: bool)
    ensures
        r == seq_lt(a@, b@),
{
    proof {
        lemma_seq_lt_irreflexive(a@);
    }
    match compare_str(a, b) {
        Order::Less => true,
        _ => false,
    }
}

/// A strictly increasing list of character sequences.
pub open spec fn strictly_sorted(s: Seq<Seq<char>>) -> bool {
    forall|i: int, j: int| 0 <= i < j < s.len() ==> seq_lt(#[trigger] s[i], #[trigger] s[j])
}

/// Two strictly sorted lists with the same members are equal.
pub proof fn lemma_strictly_sorted_unique(a: Seq<Seq<char>>, b: Seq<Seq<char>>)
    requires
        strictly_sorted(a),
        strictly_sorted(b),
        a.to_set() == b.to_set(),
    ensures
        a == b,
    decreases a.len(),
{
    if a.len() == 0 {
        if b.len() > 0 {
            assert(b.to_set().contains(b[0]));
        }
        assert(a =~= b);
    } else {
        assert(a.to_set().contains(a[0]));
        assert(b.to_set().contains(a[0]));
        assert(b.len() > 0);
        assert(b.to_set().contains(b[0]));
        assert(a.to_set().contains(b[0]));
        let j = choose|j: int| 0 <= j < b.len() && b[j] == a[0];
        let k = choose|k: int| 0 <= k < a.len() && a[k] == b[0];
        if a[0] != b[0] {
            assert(seq_lt(a[0], a[k]));
            assert(seq_lt(b[0], b[j]));
            lemma_seq_lt_transitive(a[0], b[0], a[0]);
            lemma_seq_lt_irreflexive(a[0]);
        }
        let a1 = a.drop_first();
        let b1 = b.drop_first();
        assert forall|x: Seq<char>| a1.to_set().contains(x) implies b1.to_set().contains(x) by {
            let i = choose|i: int| 0 <= i < a1.len() && a1[i] == x;
            assert(a[i + 1] == x);
            assert(seq_lt(a[0], a[i + 1]));
            lemma_seq_lt_irreflexive(x);
            assert(a.to_set().contains(x));
            let m = choose|m: int| 0 <= m < b.len() && b[m] == x;
            assert(b1[m - 1] == x);
        }
        assert forall|x: Seq<char>| b1.to_set().contains(x) implies a1.to_set().contains(x) by {
            let i = choose|i: int| 0 <= i < b1.len() && b1[i] == x;
            assert(b[i + 1] == x);
            assert(seq_lt(b[0], b[i + 1]));
            lemma_seq_lt_irreflexive(x);
            assert(b.to_set().contains(x));
            let m = choose|m: int| 0 <= m < a.len() && a[m] == x;
            assert(a1[m - 1] == x);
        }
        assert(a1.to_set() =~= b1.to_set());
        assert forall|i: int, j: int| 0 <= i < j < a1.len() implies seq_lt(#[trigger] a1[i], #[trigger] a1[j]) by {
            assert(a1[i] == a[i + 1] && a1[j] == a[j + 1]);
        }
        assert forall|i: int, j: int| 0 <= i < j < b1.len() implies seq_lt(#[trigger] b1[i], #[trigger] b1[j]) by {
            assert(b1[i] == b[i + 1] && b1[j] == b[j + 1]);
        }
        lemma_strictly_sorted_unique(a1, b1);
        assert forall|i: int| 0 <= i < a.len() implies a[i] == b[i] by {
            if i > 0 {
                assert(a[i] == a1[i - 1] && b[i] == b1[i - 1]);
            }
        }
        assert(a =~= b);
    }
}

/// The elements of `s.insert(p, x)` are those of `s` and `x`.
pub proof fn lemma_insert_to_set<A>(s: Seq<A>, p: int, x: A)
    requires
        0 <= p <= s.len(),
    ensures
        s.insert(p, x).to_set() == s.to_set().insert(x),
{
    s.insert_ensures(p, x);
    let t = s.insert(p, x);
    assert forall|y: A| t.to_set().contains(y) <==> s.to_set().insert(x).contains(y) by {
        if t.contains(y) {
            let k = choose|k: int| 0 <= k < t.len() && t[k] == y;
            if k < p {
                assert(s[k] == y);
            } else if k > p {
                assert(s[k - 1] == y);
            }
        }
        if s.contains(y) {
            let k = choose|k: int| 0 <= k < s.len() && s[k] == y;
            if k < p {
                assert(t[k] == y);
            } else {
                assert(t[k + 1] == y);
            }
        }
        if y == x {
            assert(t[p] == x);
        }
    }
    assert(t.to_set() =~= s.to_set().insert(x));
}

/// Inserts `x` into a strictly sorted list unless it is already present.
pub fn insert_sorted_unique(v: &mut Vec<String>, x: String)
    requires
        strictly_sorted(strs(old(v)@)),
    ensures
        strictly_sorted(strs(final(v)@)),
        strs(final(v)@).to_set() == strs(old(v)@).to_set().insert(x@),
{
    let mut p: usize = 0;
    while p < v.len() && str_lt(v[p].as_str(), x.as_str())
        invariant
            p <= v@.len(),
            forall|i: int| 0 <= i < p ==> seq_lt(#[trigger] strs(v@)[i], x@),
        decreases v@.len() - p,
    {
        p = p + 1;
    }
    if p < v.len() && str_eq(v[p].as_str(), x.as_str()) {
        assert(strs(v@)[p as int] == x@);
        assert(strs(v@).to_set().insert(x@) =~= strs(v@).to_set());
        return ;
    }
    let ghost old_s = strs(v@);
    proof {
        if p < old_s.len() {
            lemma_seq_lt_total(old_s[p as int], x@);
            assert(seq_lt(x@, old_s[p as int]));
        }
    }
    v.insert(p, x);
    proof {
        let new_s = strs(v@);
        assert(new_s =~= old_s.insert(p as int, x@));
        old_s.insert_ensures(p as int, x@);
        assert forall|i: int, j: int| 0 <= i < j < new_s.len() implies seq_lt(
            #[trigger] new_s[i],
            #[trigger] new_s[j],
        ) by {
            if j < p {
            } else if i < p && j == p {
            } else if i < p {
                assert(new_s[j] == old_s[j - 1]);
                lemma_seq_lt_transitive(old_s[i], x@, old_s[p as int]);
                if j - 1 > p {
                    lemma_seq_lt_transitive(old_s[i], old_s[p as int], old_s[j - 1]);
                }
            } else if i == p {
                assert(new_s[j] == old_s[j - 1]);
                if j - 1 > p {
                    lemma_seq_lt_transitive(x@, old_s[p as int], old_s[j - 1]);
                }
            } else {
                assert(new_s[i] == old_s[i - 1]);
                assert(new_s[j] == old_s[j - 1]);
            }
        }
        lemma_insert_to_set(old_s, p as int, x@);
    }
}


/// The strings of `s` joined with `sep` between neighbours.
pub open spec fn join(s: Seq<Seq<char>>, sep: Seq<char>) -> Seq<char>
    decreases s.len(),
{
    if s.len() == 0 {
        Seq::empty()
    } else if s.len() == 1 {
        s[0]
    } else {
        join(s.drop_last(), sep) + sep + s.last()
    }
}

/// `[..].join(sep)` over a list of strings.
pub fn join_strings(v: &Vec<String>, sep: &str) -> (r: String)
    ensures
        r@ == join(strs(v@), sep@),
{
    let mut out = String::new();
    let ghost s = strs(v@);
    for i in 0..v.len()
        invariant
            s == strs(v@),
            out@ == join(s.take(i as int), sep@),
    {
        assert(s.take(i + 1).drop_last() =~= s.take(i as int));
        assert(s.take(i + 1).last() == v@[i as int]@);
        if i > 0 {
            out.append(sep);
        } else {
            assert(out@ =~= Seq::<char>::empty());
        }
        out.append(v[i].as_str());
        assert(out@ =~= join(s.take(i + 1), sep@));
    }
    assert(s.take(v@.len() as int) =~= s);
    out
}

} // verus!
