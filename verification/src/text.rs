//! Byte- and character-level text primitives shared by the other modules:
//! ASCII case folding, substring search, ordering, and decimal rendering.

use vstd::prelude::*;
use vstd::string::StringSliceAdditionalSpecFns;

verus! {

broadcast use vstd::string::group_string_axioms;

/// `String::push` appends one character to the string; std documents it so
/// ("Appends the given char to the end of this String"). Trusted, not proved.
pub assume_specification[ String::push ](s: &mut String, ch: char)
    ensures
        final(s)@ == old(s)@.push(ch),
;

/// `String::pop` removes and returns the last character, or returns `None`
/// for an empty string (std's documentation). Trusted, not proved.
pub assume_specification[ String::pop ](s: &mut String) -> (r: Option<char>)
    ensures
        match r {
            Some(c) => old(s)@.len() > 0 && c == old(s)@.last() && final(s)@ == old(s)@.drop_last(),
            None => old(s)@.len() == 0 && final(s)@ == old(s)@,
        },
;

/// `String::clear` removes all contents (std's documentation). Trusted, not proved.
pub assume_specification[ String::clear ](s: &mut String)
    ensures
        final(s)@ == Seq::<char>::empty(),
;

/// ASCII lower-casing of one byte; every other byte is left alone.
pub open spec fn lower_byte(b: u8) -> u8 {
    if 65 <= b <= 90 {
        (b + 32) as u8
    } else {
        b
    }
}

/// Three-way comparison of two integers: -1, 0 or 1.
pub open spec fn three_way(a: int, b: int) -> int {
    if a < b {
        -1
    } else if a == b {
        0
    } else {
        1
    }
}

/// `needle` occurs in `hay` at offset `i`, comparing bytes after ASCII lower-casing.
pub open spec fn matches_ignore_case_at(hay: Seq<u8>, needle: Seq<u8>, i: int) -> bool {
    forall|k: int|
        0 <= k < needle.len() ==> #[trigger] lower_byte(hay[i + k]) == lower_byte(needle[k])
}

/// `needle` occurs somewhere in `hay`, ignoring ASCII case.
pub open spec fn contains_ignore_case(hay: Seq<u8>, needle: Seq<u8>) -> bool {
    exists|i: int|
        0 <= i && i + needle.len() <= hay.len() && #[trigger] matches_ignore_case_at(
            hay,
            needle,
            i,
        )
}

/// `needle` occurs in `hay` at offset `i`, byte for byte.
pub open spec fn matches_at(hay: Seq<u8>, needle: Seq<u8>, i: int) -> bool {
    forall|k: int| 0 <= k < needle.len() ==> #[trigger] hay[i + k] == needle[k]
}

/// `needle` occurs somewhere in `hay` (the empty needle occurs everywhere).
pub open spec fn contains_bytes(hay: Seq<u8>, needle: Seq<u8>) -> bool {
    exists|i: int| 0 <= i && i + needle.len() <= hay.len() && #[trigger] matches_at(hay, needle, i)
}

/// Lexicographic three-way comparison of two byte strings after ASCII
/// lower-casing; a proper prefix orders first.
pub open spec fn order_ignore_case(a: Seq<u8>, b: Seq<u8>) -> int
    decreases a.len(),
{
    if a.len() == 0 {
        if b.len() == 0 {
            0
        } else {
            -1
        }
    } else if b.len() == 0 {
        1
    } else {
        let c = three_way(lower_byte(a[0]) as int, lower_byte(b[0]) as int);
        if c != 0 {
            c
        } else {
            order_ignore_case(a.drop_first(), b.drop_first())
        }
    }
}

/// The decimal digits of `n`, as ASCII bytes, without leading zeros.
pub open spec fn decimal_bytes(n: nat) -> Seq<u8>
    decreases n,
{
    if n < 10 {
        seq![(48 + n) as u8]
    } else {
        decimal_bytes(n / 10).push((48 + n % 10) as u8)
    }
}

/// The decimal rendering of `n` as characters.
pub open spec fn decimal_chars(n: nat) -> Seq<char> {
    decimal_bytes(n).map_values(|b: u8| b as char)
}

/// The decimal rendering of a signed integer, with a leading `-` when negative.
pub open spec fn signed_decimal_chars(n: int) -> Seq<char> {
    if n < 0 {
        seq!['-'] + decimal_chars((-n) as nat)
    } else {
        decimal_chars(n as nat)
    }
}

pub proof fn lemma_order_ignore_case_antisym(a: Seq<u8>, b: Seq<u8>)
    ensures
        order_ignore_case(a, b) == -order_ignore_case(b, a),
    decreases a.len(),
{
    if a.len() > 0 && b.len() > 0 {
        lemma_order_ignore_case_antisym(a.drop_first(), b.drop_first());
    }
}

pub proof fn lemma_order_ignore_case_trans(a: Seq<u8>, b: Seq<u8>, c: Seq<u8>)
    requires
        order_ignore_case(a, b) <= 0,
        order_ignore_case(b, c) <= 0,
    ensures
        order_ignore_case(a, c) <= 0,
        order_ignore_case(a, b) < 0 || order_ignore_case(b, c) < 0 ==> order_ignore_case(a, c) < 0,
    decreases a.len(),
{
    if a.len() > 0 && b.len() > 0 && c.len() > 0 {
        let ca = lower_byte(a[0]) as int;
        let cb = lower_byte(b[0]) as int;
        let cc = lower_byte(c[0]) as int;
        if ca == cb && cb == cc {
            lemma_order_ignore_case_trans(a.drop_first(), b.drop_first(), c.drop_first());
        }
    }
}

/// Byte-wise, ASCII-case-insensitive lexicographic comparison of two strings,
/// as -1, 0 or 1.
pub fn compare_ignore_ascii_case(a: &str, b: &str) -> (r: i8)
    ensures
        r as int == order_ignore_case(a.spec_bytes(), b.spec_bytes()),
{
    let x = a.as_bytes();
    let y = b.as_bytes();
    let n = x.len();
    let m = y.len();
    let mut i: usize = 0;
    assert(x@.skip(0) =~= x@);
    assert(y@.skip(0) =~= y@);
    while i < n && i < m
        invariant
            x@ == a.spec_bytes(),
            y@ == b.spec_bytes(),
            n == x@.len(),
            m == y@.len(),
            i <= n,
            i <= m,
            order_ignore_case(x@, y@) == order_ignore_case(x@.skip(i as int), y@.skip(i as int)),
        decreases n - i,
    {
        let p = ascii_lower(x[i]);
        let q = ascii_lower(y[i]);
        assert(x@.skip(i as int).drop_first() =~= x@.skip(i + 1));
        assert(y@.skip(i as int).drop_first() =~= y@.skip(i + 1));
        if p < q {
            return -1;
        }
        if p > q {
            return 1;
        }
        i = i + 1;
    }
    if i < n {
        1
    } else if i < m {
        -1
    } else {
        0
    }
}

/// ASCII lower-casing of one byte.
pub fn ascii_lower(b: u8) -> (r: u8)
    ensures
        r == lower_byte(b),
{
    if 65 <= b && b <= 90 {
        b + 32
    } else {
        b
    }
}

/// Whether `needle` occurs in `hay` at byte offset `at`, ignoring ASCII case.
fn window_matches_ignore_case(hay: &[u8], needle: &[u8], at: usize) -> (r: bool)
    requires
        at + needle@.len() <= hay@.len(),
        hay@.len() <= usize::MAX,
    ensures
        r == matches_ignore_case_at(hay@, needle@, at as int),
{
    let n = needle.len();
    let mut k: usize = 0;
    while k < n
        invariant
            n == needle@.len(),
            at + n <= hay@.len(),
            hay@.len() <= usize::MAX,
            k <= n,
            forall|j: int|
                0 <= j < k ==> #[trigger] lower_byte(hay@[at + j]) == lower_byte(needle@[j]),
        decreases n - k,
    {
        if ascii_lower(hay[at + k]) != ascii_lower(needle[k]) {
            assert(!(lower_byte(hay@[at + k as int]) == lower_byte(needle@[k as int])));
            return false;
        }
        k = k + 1;
    }
    true
}

/// Whether `needle` occurs in `hay` at byte offset `at`.
fn window_matches(hay: &[u8], needle: &[u8], at: usize) -> (r: bool)
    requires
        at + needle@.len() <= hay@.len(),
        hay@.len() <= usize::MAX,
    ensures
        r == matches_at(hay@, needle@, at as int),
{
    let n = needle.len();
    let mut k: usize = 0;
    while k < n
        invariant
            n == needle@.len(),
            at + n <= hay@.len(),
            hay@.len() <= usize::MAX,
            k <= n,
            forall|j: int| 0 <= j < k ==> #[trigger] hay@[at + j] == needle@[j],
        decreases n - k,
    {
        if hay[at + k] != needle[k] {
            assert(!(hay@[at + k as int] == needle@[k as int]));
            return false;
        }
        k = k + 1;
    }
    true
}

/// ASCII-case-insensitive substring search over the bytes of two strings.
/// The needle must not be empty.
pub fn contains_ignore_ascii_case(hay: &str, needle: &str) -> (r: bool)
    requires
        needle.spec_bytes().len() > 0,
    ensures
        r == contains_ignore_case(hay.spec_bytes(), needle.spec_bytes()),
{
    let h = hay.as_bytes();
    let n = needle.as_bytes();
    if n.len() > h.len() {
        return false;
    }
    let last = h.len() - n.len();
    let mut i: usize = 0;
    loop
        invariant
            h@ == hay.spec_bytes(),
            n@ == needle.spec_bytes(),
            last == h@.len() - n@.len(),
            h@.len() <= usize::MAX,
            i <= last,
            forall|j: int| 0 <= j < i ==> !#[trigger] matches_ignore_case_at(h@, n@, j),
        decreases last - i,
    {
        if window_matches_ignore_case(h, n, i) {
            return true;
        }
        if i == last {
            return false;
        }
        i = i + 1;
    }
}

/// Byte-exact substring search.
pub fn contains_slice(hay: &[u8], needle: &[u8]) -> (r: bool)
    ensures
        r == contains_bytes(hay@, needle@),
{
    if needle.len() > hay.len() {
        return false;
    }
    let last = hay.len() - needle.len();
    let mut i: usize = 0;
    loop
        invariant
            last == hay@.len() - needle@.len(),
            hay@.len() <= usize::MAX,
            i <= last,
            forall|j: int| 0 <= j < i ==> !#[trigger] matches_at(hay@, needle@, j),
        decreases last - i,
    {
        if window_matches(hay, needle, i) {
            return true;
        }
        if i == last {
            return false;
        }
        i = i + 1;
    }
}

/// The decimal digits of `n` as ASCII bytes.
pub fn decimal_digits(n: u128) -> (r: Vec<u8>)
    ensures
        r@ == decimal_bytes(n as nat),
{
    let mut m = n;
    let mut out: Vec<u8> = Vec::new();
    loop
        invariant_except_break
            decimal_bytes(n as nat) == decimal_bytes(m as nat) + out@,
        ensures
            decimal_bytes(n as nat) == out@,
        decreases m,
    {
        let d = (m % 10) as u8;
        let ghost before = out@;
        out.insert(0, 48 + d);
        assert(out@ =~= seq![(48 + d) as u8] + before);
        if m < 10 {
            assert(decimal_bytes(m as nat) =~= seq![(48 + m) as u8]);
            break;
        }
        assert(decimal_bytes(m as nat) == decimal_bytes((m / 10) as nat).push(
            (48 + m % 10) as u8,
        ));
        assert(decimal_bytes((m / 10) as nat).push((48 + d) as u8) + before =~= decimal_bytes(
            (m / 10) as nat,
        ) + out@);
        m = m / 10;
    }
    out
}

/// The characters of a string.
pub fn chars_of(s: &str) -> (v: Vec<char>)
    ensures
        v@ == s@,
{
    let mut v: Vec<char> = Vec::new();
    for c in it: s.chars()
        invariant
            v@ == it.seq().take(it.index() as int),
            it.seq() == s@,
    {
        v.push(c);
    }
    v
}

/// Appends the characters of the span `[a, b)`.
pub fn push_span(out: &mut String, text: &Vec<char>, a: usize, b: usize)
    requires
        a <= b <= text@.len(),
    ensures
        final(out)@ == old(out)@ + text@.subrange(a as int, b as int),
{
    let mut i = a;
    while i < b
        invariant
            a <= i <= b <= text@.len(),
            out@ == old(out)@ + text@.subrange(a as int, i as int),
        decreases b - i,
    {
        out.push(text[i]);
        assert(text@.subrange(a as int, i + 1) =~= text@.subrange(a as int, i as int).push(
            text@[i as int],
        ));
        i = i + 1;
    }
}

/// Appends every character of `cs`.
pub fn push_chars(out: &mut String, cs: &[char])
    ensures
        final(out)@ == old(out)@ + cs@,
{
    let n = cs.len();
    let mut i: usize = 0;
    while i < n
        invariant
            n == cs@.len(),
            i <= n,
            out@ == old(out)@ + cs@.take(i as int),
        decreases n - i,
    {
        out.push(cs[i]);
        assert(cs@.take(i + 1) =~= cs@.take(i as int).push(cs@[i as int]));
        i = i + 1;
    }
    assert(cs@.take(n as int) =~= cs@);
}

/// Appends the decimal digits of `n`.
pub fn push_decimal(out: &mut String, n: u128)
    ensures
        final(out)@ == old(out)@ + decimal_chars(n as nat),
{
    let digits = decimal_digits(n);
    let k = digits.len();
    let mut j: usize = 0;
    while j < k
        invariant
            k == digits@.len(),
            digits@ == decimal_bytes(n as nat),
            j <= k,
            out@ == old(out)@ + digits@.take(j as int).map_values(|x: u8| x as char),
        decreases k - j,
    {
        out.push(digits[j] as char);
        assert(digits@.take(j + 1).map_values(|x: u8| x as char) =~= digits@.take(
            j as int,
        ).map_values(|x: u8| x as char).push(digits@[j as int] as char));
        j = j + 1;
    }
    assert(digits@.take(k as int) =~= digits@);
}


/// `needle` occurs in `hay` at offset `i`, element for element.
pub open spec fn seq_matches_at<T>(hay: Seq<T>, needle: Seq<T>, i: int) -> bool {
    forall|k: int| 0 <= k < needle.len() ==> #[trigger] hay[i + k] == needle[k]
}

/// `needle` occurs somewhere in `hay`.
pub open spec fn seq_contains<T>(hay: Seq<T>, needle: Seq<T>) -> bool {
    exists|i: int| 0 <= i && i + needle.len() <= hay.len() && #[trigger] seq_matches_at(hay, needle, i)
}

/// Whether `needle` occurs in `hay` at offset `at`.
fn chars_match_at(hay: &Vec<char>, needle: &[char], at: usize) -> (r: bool)
    requires
        at + needle@.len() <= hay@.len(),
    ensures
        r == seq_matches_at(hay@, needle@, at as int),
{
    let n = needle.len();
    let h = hay.len();
    let mut k: usize = 0;
    while k < n
        invariant
            n == needle@.len(),
            h == hay@.len(),
            at + n <= hay@.len(),
            k <= n,
            forall|j: int| 0 <= j < k ==> #[trigger] hay@[at + j] == needle@[j],
        decreases n - k,
    {
        if hay[at + k] != needle[k] {
            assert(!(hay@[at + k as int] == needle@[k as int]));
            return false;
        }
        k = k + 1;
    }
    true
}

/// Character-exact substring search.
pub fn contains_chars(hay: &Vec<char>, needle: &[char]) -> (r: bool)
    ensures
        r == seq_contains(hay@, needle@),
{
    if needle.len() > hay.len() {
        return false;
    }
    let last = hay.len() - needle.len();
    let mut i: usize = 0;
    loop
        invariant
            last == hay@.len() - needle@.len(),
            i <= last,
            forall|j: int| 0 <= j < i ==> !#[trigger] seq_matches_at(hay@, needle@, j),
        decreases last - i,
    {
        if chars_match_at(hay, needle, i) {
            return true;
        }
        if i == last {
            return false;
        }
        i = i + 1;
    }
}

/// The Unicode lower-case mapping of a string, as `str::to_lowercase`
/// computes it.
pub uninterp spec fn lowercase_of(s: Seq<char>) -> Seq<char>;

/// Calls `str::to_lowercase`. Trusted: its result is named, not stated —
/// the Unicode case tables of std decide it, from the argument alone.
#[verifier::external_body]
pub(crate) fn to_lowercase(s: &str) -> (r: String)
    ensures
        r@ == lowercase_of(s@),
{
    s.to_lowercase()
}

/// The UTF-8 bytes of a string, copied.
pub fn bytes_of(s: &str) -> (v: Vec<u8>)
    ensures
        v@ == s.spec_bytes(),
{
    let b = s.as_bytes();
    let n = b.len();
    let mut v: Vec<u8> = Vec::new();
    let mut i: usize = 0;
    while i < n
        invariant
            n == b@.len(),
            i <= n,
            v@ == b@.take(i as int),
        decreases n - i,
    {
        v.push(b[i]);
        assert(b@.take(i + 1) =~= b@.take(i as int).push(b@[i as int]));
        i = i + 1;
    }
    assert(b@.take(n as int) =~= b@);
    v
}

} // verus!
