//! Character-level text helpers shared by the rest of the library: decimal
//! rendering, prefix/suffix/substring tests, and thin contracts over the few
//! std string operations the logic relies on.
use vstd::prelude::*;

verus! {

// ---------------------------------------------------------------------------
// Decimal rendering
// ---------------------------------------------------------------------------

/// The ASCII digit for `d` (`0 <= d < 10`).
pub open spec fn digit_char(d: int) -> char {
    seq!['0', '1', '2', '3', '4', '5', '6', '7', '8', '9'][d]
}

/// The shortest decimal rendering of a natural number.
pub open spec fn decimal(n: nat) -> Seq<char>
    decreases n,
{
    if n < 10 {
        seq![digit_char(n as int)]
    } else {
        decimal(n / 10).push(digit_char((n % 10) as int))
    }
}

/// Decimal rendering of an integer, with a leading `-` when negative.
pub open spec fn signed_decimal(n: int) -> Seq<char> {
    if n < 0 {
        seq!['-'] + decimal((-n) as nat)
    } else {
        decimal(n as nat)
    }
}

/// `decimal(n)` left-padded with `0` to at least `width` characters.
pub open spec fn zero_padded(n: nat, width: nat) -> Seq<char> {
    let s = decimal(n);
    if s.len() < width {
        Seq::new((width - s.len()) as nat, |i: int| '0') + s
    } else {
        s
    }
}

pub proof fn lemma_decimal_small(n: nat)
    requires
        n < 10,
    ensures
        decimal(n) == seq![digit_char(n as int)],
{
}

pub proof fn lemma_decimal_two(n: nat)
    requires
        10 <= n < 100,
    ensures
        decimal(n) == seq![digit_char((n / 10) as int), digit_char((n % 10) as int)],
{
    assert(decimal(n / 10) == seq![digit_char((n / 10) as int)]);
}

/// Renders `n` in decimal, with a leading `-` when negative (what std's
/// `to_string` gives).
pub(crate) fn i64_text(n: i64) -> (r: String)
    ensures
        r@ == signed_decimal(n as int),
{
    if n < 0 {
        let m: u64 = (-(n + 1)) as u64 + 1;
        let mut t = String::new();
        push_char(&mut t, '-');
        let d = u64_text(m);
        push_str(&mut t, d.as_str());
        t
    } else {
        u64_text(n as u64)
    }
}

/// Renders `n` in decimal (what std's `to_string` gives).
pub(crate) fn u64_text(n: u64) -> (r: String)
    ensures
        r@ == decimal(n as nat),
    decreases n,
{
    let digits = ['0', '1', '2', '3', '4', '5', '6', '7', '8', '9'];
    assert(digits@ =~= seq!['0', '1', '2', '3', '4', '5', '6', '7', '8', '9']);
    let mut t = if n < 10 {
        String::new()
    } else {
        u64_text(n / 10)
    };
    push_char(&mut t, digits[(n % 10) as usize]);
    proof {
        if n < 10 {
            assert(t@ =~= seq![digit_char(n as int)]);
        }
    }
    t
}

/// Appends one character (std `String::push`).
#[verifier::external_body]
pub(crate) fn push_char(s: &mut String, c: char)
    ensures
        final(s)@ == old(s)@.push(c),
{
    s.push(c)
}

/// Appends a string slice (std `String::push_str`).
#[verifier::external_body]
pub(crate) fn push_str(s: &mut String, t: &str)
    ensures
        final(s)@ == old(s)@ + t@,
{
    s.push_str(t)
}

/// Appends `n` zero-padded to two digits (`n < 100`).
pub fn push_two_digits(s: &mut String, n: u32)
    requires
        n < 100,
    ensures
        final(s)@ == old(s)@ + zero_padded(n as nat, 2),
{
    let tens = n / 10;
    let ones = n % 10;
    let digits = ['0', '1', '2', '3', '4', '5', '6', '7', '8', '9'];
    if n < 10 {
        proof {
            lemma_decimal_small(n as nat);
            assert(zero_padded(n as nat, 2) =~= seq!['0', digit_char(n as int)]);
        }
    } else {
        proof {
            lemma_decimal_two(n as nat);
            assert(zero_padded(n as nat, 2) =~= seq![
                digit_char(tens as int),
                digit_char(ones as int),
            ]);
        }
    }
    push_char(s, digits[tens as usize]);
    push_char(s, digits[ones as usize]);
}

// ---------------------------------------------------------------------------
// Character sequences
// ---------------------------------------------------------------------------

/// The characters of a string, in order.
pub fn chars_of(s: &str) -> (v: Vec<char>)
    ensures
        v@ == s@,
{
    let mut v: Vec<char> = Vec::new();
    for c in it: s.chars()
        invariant
            v@ == it.seq().take(it.index() as int),
    {
        v.push(c);
    }
    v
}

/// A string holding exactly the given characters.
pub fn string_of(cs: &Vec<char>) -> (s: String)
    ensures
        s@ == cs@,
{
    let mut s = String::new();
    let mut i: usize = 0;
    while i < cs.len()
        invariant
            i <= cs.len(),
            s@ == cs@.take(i as int),
        decreases cs.len() - i,
    {
        push_char(&mut s, cs[i]);
        i = i + 1;
        assert(s@ =~= cs@.take(i as int));
    }
    assert(cs@.take(cs.len() as int) =~= cs@);
    s
}

/// Whether two strings hold the same characters.
pub fn same_text(a: &str, b: &str) -> (r: bool)
    ensures
        r == (a@ == b@),
{
    let x = chars_of(a);
    let y = chars_of(b);
    if x.len() != y.len() {
        return false;
    }
    let mut i: usize = 0;
    while i < x.len()
        invariant
            x@ == a@,
            y@ == b@,
            x.len() == y.len(),
            i <= x.len(),
            forall|j: int| 0 <= j < i ==> x@[j] == y@[j],
        decreases x.len() - i,
    {
        if x[i] != y[i] {
            return false;
        }
        i = i + 1;
    }
    assert(x@ =~= y@);
    true
}

/// Length in UTF-8 bytes, as std's `str::len` reports it.
pub open spec fn byte_len(s: Seq<char>) -> usize {
    vstd::utf8::encode_utf8(s).len() as usize
}

/// Whether `s` begins with `p`.
pub open spec fn has_prefix(s: Seq<char>, p: Seq<char>) -> bool {
    p.len() <= s.len() && s.subrange(0, p.len() as int) == p
}

/// Whether `s` ends with `p`.
pub open spec fn has_suffix(s: Seq<char>, p: Seq<char>) -> bool {
    p.len() <= s.len() && s.subrange(s.len() - p.len(), s.len() as int) == p
}

/// Whether `p` occurs in `s` starting at position `i`.
pub open spec fn occurs_at(s: Seq<char>, p: Seq<char>, i: int) -> bool {
    0 <= i && i + p.len() <= s.len() && s.subrange(i, i + p.len()) == p
}

/// Whether `p` occurs anywhere in `s`.
pub open spec fn has_substring(s: Seq<char>, p: Seq<char>) -> bool {
    exists|i: int| occurs_at(s, p, i)
}

fn matches_at(s: &Vec<char>, p: &Vec<char>, at: usize) -> (r: bool)
    requires
        at + p.len() <= s.len(),
    ensures
        r == (s@.subrange(at as int, at + p.len()) == p@),
{
    let mut j: usize = 0;
    while j < p.len()
        invariant
            at + p.len() <= s.len(),
            j <= p.len(),
            forall|k: int| 0 <= k < j ==> s@[at + k] == p@[k],
        decreases p.len() - j,
    {
        if s[at + j] != p[j] {
            assert(s@.subrange(at as int, at + p.len())[j as int] != p@[j as int]);
            return false;
        }
        j = j + 1;
    }
    assert(s@.subrange(at as int, at + p.len()) =~= p@);
    true
}

/// Whether `s` begins with `p` (std `str::starts_with` for a string pattern).
pub fn starts_with(s: &str, p: &str) -> (r: bool)
    ensures
        r == has_prefix(s@, p@),
{
    let x = chars_of(s);
    let y = chars_of(p);
    if y.len() > x.len() {
        return false;
    }
    matches_at(&x, &y, 0)
}

/// Whether `s` ends with `p` (std `str::ends_with` for a string pattern).
pub fn ends_with(s: &str, p: &str) -> (r: bool)
    ensures
        r == has_suffix(s@, p@),
{
    let x = chars_of(s);
    let y = chars_of(p);
    if y.len() > x.len() {
        return false;
    }
    matches_at(&x, &y, x.len() - y.len())
}

/// Whether `p` occurs in `s` (std `str::contains` for a string pattern).
pub fn contains_text(s: &str, p: &str) -> (r: bool)
    ensures
        r == has_substring(s@, p@),
{
    let x = chars_of(s);
    let y = chars_of(p);
    if y.len() > x.len() {
        assert forall|i: int| !occurs_at(s@, p@, i) by {}
        return false;
    }
    if y.len() == 0 {
        assert(s@.subrange(0, 0) =~= p@);
        assert(occurs_at(s@, p@, 0));
        return true;
    }
    let mut i: usize = 0;
    let last = x.len() - y.len();
    while i <= last
        invariant
            x@ == s@,
            y@ == p@,
            y.len() <= x.len(),
            last == x.len() - y.len(),
            last < x.len(),
            i <= last + 1,
            forall|k: int| 0 <= k < i ==> !occurs_at(s@, p@, k),
        decreases last + 1 - i,
    {
        if matches_at(&x, &y, i) {
            assert(occurs_at(s@, p@, i as int));
            return true;
        }
        i = i + 1;
    }
    assert forall|k: int| !occurs_at(s@, p@, k) by {
        if 0 <= k && k + p@.len() <= s@.len() {
            assert(k < i);
        }
    }
    false
}

// ---------------------------------------------------------------------------
// Unicode-aware std operations
// ---------------------------------------------------------------------------

/// Whether `c` has the Unicode `White_Space` property (the property std's
/// `char::is_whitespace` tests): tab, line feed, vertical tab, form feed,
/// carriage return, space, next line, no-break space, ogham space mark, the
/// spaces U+2000–U+200A, line and paragraph separators, narrow no-break
/// space, medium mathematical space and ideographic space.
pub open spec fn unicode_white_space(c: char) -> bool {
    let u = c as u32;
    (0x09 <= u <= 0x0D) || u == 0x20 || u == 0x85 || u == 0xA0 || u == 0x1680 || (0x2000 <= u
        <= 0x200A) || u == 0x2028 || u == 0x2029 || u == 0x202F || u == 0x205F || u == 0x3000
}

/// Whether `c` is whitespace (as std's `char::is_whitespace` decides).
pub(crate) fn is_whitespace(c: char) -> (r: bool)
    ensures
        r == unicode_white_space(c),
{
    let u = c as u32;
    (0x09 <= u && u <= 0x0D) || u == 0x20 || u == 0x85 || u == 0xA0 || u == 0x1680 || (0x2000
        <= u && u <= 0x200A) || u == 0x2028 || u == 0x2029 || u == 0x202F || u == 0x205F || u
        == 0x3000
}

/// `s` with leading and trailing White_Space characters removed.
#[verifier::opaque]
pub open spec fn trimmed(s: Seq<char>) -> Seq<char> {
    if forall|i: int| 0 <= i < s.len() ==> unicode_white_space(#[trigger] s[i]) {
        Seq::empty()
    } else {
        let a = choose|a: int|
            0 <= a < s.len() && !unicode_white_space(s[a]) && (forall|i: int|
                0 <= i < a ==> unicode_white_space(#[trigger] s[i]));
        let b = choose|b: int|
            0 <= b < s.len() && !unicode_white_space(s[b]) && (forall|i: int|
                b < i < s.len() ==> unicode_white_space(#[trigger] s[i]));
        s.subrange(a, b + 1)
    }
}

/// `s` without its leading and trailing whitespace (what std's `str::trim`
/// gives, whitespace being the `White_Space` property).
pub(crate) fn trim(s: &str) -> (r: String)
    ensures
        r@ == trimmed(s@),
{
    let cs = chars_of(s);
    let n = cs.len();
    let mut a: usize = 0;
    while a < n && is_whitespace(cs[a])
        invariant
            a <= n == cs@.len(),
            forall|i: int| 0 <= i < a ==> unicode_white_space(#[trigger] cs@[i]),
        decreases n - a,
    {
        a = a + 1;
    }
    if a == n {
        proof {
            reveal(trimmed);
            assert(forall|i: int| 0 <= i < s@.len() ==> unicode_white_space(#[trigger] s@[i]));
        }
        return String::new();
    }
    let mut b: usize = n;
    while b > a + 1 && is_whitespace(cs[b - 1])
        invariant
            a < b <= n == cs@.len(),
            !unicode_white_space(cs@[a as int]),
            forall|i: int| b <= i < n ==> unicode_white_space(#[trigger] cs@[i]),
        decreases b,
    {
        b = b - 1;
    }
    let mut kept: Vec<char> = Vec::new();
    let mut k: usize = a;
    while k < b
        invariant
            a <= k <= b <= cs@.len(),
            kept@ == cs@.subrange(a as int, k as int),
        decreases b - k,
    {
        kept.push(cs[k]);
        k = k + 1;
        assert(kept@ =~= cs@.subrange(a as int, k as int));
    }
    proof {
        reveal(trimmed);
        let t = s@;
        assert(!unicode_white_space(t[a as int]));
        assert(!unicode_white_space(t[b - 1]));
        let a2 = choose|a2: int|
            0 <= a2 < t.len() && !unicode_white_space(t[a2]) && (forall|i: int|
                0 <= i < a2 ==> unicode_white_space(#[trigger] t[i]));
        let b2 = choose|b2: int|
            0 <= b2 < t.len() && !unicode_white_space(t[b2]) && (forall|i: int|
                b2 < i < t.len() ==> unicode_white_space(#[trigger] t[i]));
        assert(0 <= a < t.len() && !unicode_white_space(t[a as int]) && (forall|i: int|
            0 <= i < a ==> unicode_white_space(#[trigger] t[i])));
        assert(0 <= b - 1 < t.len() && !unicode_white_space(t[b - 1]) && (forall|i: int|
            b - 1 < i < t.len() ==> unicode_white_space(#[trigger] t[i])));
        if a2 < a {
            assert(unicode_white_space(t[a2]));
        }
        if a2 > a {
            assert(unicode_white_space(t[a as int]));
        }
        if b2 < b - 1 {
            assert(unicode_white_space(t[b - 1]));
        }
        if b2 > b - 1 {
            assert(unicode_white_space(t[b2]));
        }
        assert(trimmed(t) == t.subrange(a as int, b as int));
    }
    string_of(&kept)
}

/// The full Unicode lowercase mapping of a string (what std's
/// `str::to_lowercase` returns).
pub uninterp spec fn lowercase(s: Seq<char>) -> Seq<char>;

/// std `str::to_lowercase`.
#[verifier::external_body]
pub(crate) fn to_lowercase(s: &str) -> (r: String)
    ensures
        r@ == lowercase(s@),
{
    s.to_lowercase()
}

/// The full Unicode uppercase mapping of a string (what std's
/// `str::to_uppercase` returns).
pub uninterp spec fn uppercase(s: Seq<char>) -> Seq<char>;

/// std `str::to_uppercase`.
#[verifier::external_body]
pub(crate) fn to_uppercase(s: &str) -> (r: String)
    ensures
        r@ == uppercase(s@),
{
    s.to_uppercase()
}

// ---------------------------------------------------------------------------
// Integer parsing
// ---------------------------------------------------------------------------

pub open spec fn is_digit_byte(b: u8) -> bool {
    48 <= b <= 57
}

pub open spec fn all_digit_bytes(s: Seq<u8>) -> bool {
    forall|i: int| 0 <= i < s.len() ==> is_digit_byte(#[trigger] s[i])
}

/// The value of a run of ASCII decimal digits.
pub open spec fn digits_value(s: Seq<u8>) -> int
    decreases s.len(),
{
    if s.len() == 0 {
        0
    } else {
        digits_value(s.drop_last()) * 10 + (s.last() - 48)
    }
}

/// What std's `i64::from_str` returns for the given bytes: an optional single
/// `+`/`-` followed by one or more ASCII digits, whose value fits in `i64`.
pub open spec fn parsed_i64(s: Seq<u8>) -> Option<i64> {
    let signed = s.len() > 0 && (s[0] == 43 || s[0] == 45);
    let digits = if signed {
        s.drop_first()
    } else {
        s
    };
    let v = if signed && s[0] == 45 {
        -digits_value(digits)
    } else {
        digits_value(digits)
    };
    if digits.len() > 0 && all_digit_bytes(digits) && i64::MIN <= v <= i64::MAX {
        Some(v as i64)
    } else {
        None
    }
}

proof fn lemma_digits_value_grows(s: Seq<u8>, i: int)
    requires
        all_digit_bytes(s),
        0 <= i <= s.len(),
    ensures
        0 <= digits_value(s.take(i)) <= digits_value(s),
    decreases s.len(),
{
    if s.len() > 0 {
        if i == s.len() {
            assert(s.take(i) =~= s);
            lemma_digits_value_grows(s.drop_last(), s.len() - 1);
            assert(s.drop_last().take(s.len() - 1) =~= s.drop_last());
        } else {
            lemma_digits_value_grows(s.drop_last(), i);
            assert(s.drop_last().take(i) =~= s.take(i));
        }
    }
}

/// Reads an `i64` as std's `str::parse::<i64>` does: an optional `+` or
/// `-`, then one or more ASCII digits, within `i64`'s range.
pub(crate) fn parse_i64(s: &str) -> (r: Option<i64>)
    ensures
        r == parsed_i64(vstd::utf8::encode_utf8(s@)),
{
    let b = s.as_bytes();
    let ghost bs = b@;
    let signed = b.len() > 0 && (b[0] == 43 || b[0] == 45);
    let neg = signed && b[0] == 45;
    let start: usize = if signed {
        1
    } else {
        0
    };
    let ghost digits = if signed {
        bs.drop_first()
    } else {
        bs
    };
    assert(digits =~= bs.subrange(start as int, bs.len() as int));
    if start >= b.len() {
        return None;
    }
    let limit: u128 = if neg {
        9223372036854775808
    } else {
        9223372036854775807
    };
    let mut acc: u128 = 0;
    let mut i: usize = start;
    while i < b.len()
        invariant
            start <= i <= b@.len(),
            bs == b@,
            bs == vstd::utf8::encode_utf8(s@),
            neg == (bs.len() > 0 && bs[0] == 45),
            start == (if bs.len() > 0 && (bs[0] == 43 || bs[0] == 45) {
                1int
            } else {
                0int
            }),
            limit == (if neg {
                9223372036854775808u128
            } else {
                9223372036854775807u128
            }),
            digits == bs.subrange(start as int, bs.len() as int),
            acc <= limit,
            limit <= 9223372036854775808,
            forall|j: int| 0 <= j < i - start ==> is_digit_byte(#[trigger] digits[j]),
            acc == digits_value(digits.take(i - start)),
        decreases b.len() - i,
    {
        let c = b[i];
        if c < 48 || c > 57 {
            assert(!is_digit_byte(digits[i - start]));
            return None;
        }
        let next = acc * 10 + (c - 48) as u128;
        assert(digits.take(i - start + 1).drop_last() =~= digits.take(i - start));
        assert(digits[i - start] == c);
        assert(next == digits_value(digits.take(i - start + 1)));
        if next > limit {
            proof {
                if start == 1 {
                    assert(digits =~= bs.drop_first());
                } else {
                    assert(digits =~= bs);
                }
                if all_digit_bytes(digits) {
                    lemma_digits_value_grows(digits, i - start + 1);
                    assert(digits_value(digits) > limit);
                    if neg {
                        assert(-digits_value(digits) < i64::MIN);
                    } else {
                        assert(digits_value(digits) > i64::MAX);
                    }
                }
                assert(parsed_i64(bs) is None);
            }
            return None;
        }
        acc = next;
        i = i + 1;
    }
    assert(digits.take(digits.len() as int) =~= digits);
    assert(all_digit_bytes(digits));
    if neg {
        if acc == 9223372036854775808 {
            Some(i64::MIN)
        } else {
            Some(-(acc as i64))
        }
    } else {
        Some(acc as i64)
    }
}

} // verus!
