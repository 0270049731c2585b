//! Byte- and character-level text helpers shared by the parsers and
//! builders of the library: searching, splitting, decimal numbers,
//! Unicode whitespace trimming and UTF-8 conversion.
use vstd::prelude::*;
use vstd::utf8::*;

verus! {

// ---------------------------------------------------------------------------
// Searching
// ---------------------------------------------------------------------------

/// Index of the first occurrence of `c` in `b`.
pub open spec fn find_first(b: Seq<u8>, c: u8) -> Option<int>
    decreases b.len(),
{
    if b.len() == 0 {
        None
    } else if b[0] == c {
        Some(0)
    } else {
        match find_first(b.drop_first(), c) {
            Some(i) => Some(i + 1),
            None => None,
        }
    }
}

/// Index of the last occurrence of `c` in `b`.
pub open spec fn find_last(b: Seq<u8>, c: u8) -> Option<int>
    decreases b.len(),
{
    if b.len() == 0 {
        None
    } else if b.last() == c {
        Some(b.len() - 1)
    } else {
        find_last(b.drop_last(), c)
    }
}

pub proof fn lemma_find_first_char(b: Seq<u8>, c: u8)
    ensures
        find_first(b, c) matches Some(i) ==> 0 <= i < b.len() && b[i] == c && forall|k: int|
            0 <= k < i ==> b[k] != c,
        find_first(b, c) is None ==> forall|k: int| 0 <= k < b.len() ==> b[k] != c,
    decreases b.len(),
{
    if b.len() > 0 && b[0] != c {
        lemma_find_first_char(b.drop_first(), c);
        if let Some(i) = find_first(b, c) {
            assert forall|k: int| 0 <= k < i implies b[k] != c by {
                if k > 0 {
                    assert(b[k] == b.drop_first()[k - 1]);
                }
            }
        } else {
            assert forall|k: int| 0 <= k < b.len() implies b[k] != c by {
                if k > 0 {
                    assert(b[k] == b.drop_first()[k - 1]);
                }
            }
        }
    }
}

/// `find_first` is determined by the first occurrence.
pub proof fn lemma_find_first_at(b: Seq<u8>, c: u8, i: int)
    requires
        0 <= i < b.len(),
        b[i] == c,
        forall|k: int| 0 <= k < i ==> b[k] != c,
    ensures
        find_first(b, c) == Some(i),
    decreases b.len(),
{
    if i > 0 {
        assert forall|k: int| 0 <= k < i - 1 implies b.drop_first()[k] != c by {
            assert(b.drop_first()[k] == b[k + 1]);
        }
        lemma_find_first_at(b.drop_first(), c, i - 1);
    }
}

pub proof fn lemma_find_first_none(b: Seq<u8>, c: u8)
    requires
        forall|k: int| 0 <= k < b.len() ==> b[k] != c,
    ensures
        find_first(b, c) is None,
    decreases b.len(),
{
    if b.len() > 0 {
        assert forall|k: int| 0 <= k < b.len() - 1 implies b.drop_first()[k] != c by {
            assert(b.drop_first()[k] == b[k + 1]);
        }
        lemma_find_first_none(b.drop_first(), c);
    }
}

pub proof fn lemma_find_last_char(b: Seq<u8>, c: u8)
    ensures
        find_last(b, c) matches Some(i) ==> 0 <= i < b.len() && b[i] == c && forall|k: int|
            i < k < b.len() ==> b[k] != c,
        find_last(b, c) is None ==> forall|k: int| 0 <= k < b.len() ==> b[k] != c,
    decreases b.len(),
{
    if b.len() > 0 && b.last() != c {
        lemma_find_last_char(b.drop_last(), c);
        assert forall|k: int| 0 <= k < b.len() - 1 implies b.drop_last()[k] == b[k] by {}
    }
}

pub proof fn lemma_find_last_at(b: Seq<u8>, c: u8, i: int)
    requires
        0 <= i < b.len(),
        b[i] == c,
        forall|k: int| i < k < b.len() ==> b[k] != c,
    ensures
        find_last(b, c) == Some(i),
    decreases b.len(),
{
    if i < b.len() - 1 {
        lemma_find_last_at(b.drop_last(), c, i);
    }
}

pub proof fn lemma_find_last_none(b: Seq<u8>, c: u8)
    requires
        forall|k: int| 0 <= k < b.len() ==> b[k] != c,
    ensures
        find_last(b, c) is None,
    decreases b.len(),
{
    if b.len() > 0 {
        lemma_find_last_none(b.drop_last(), c);
    }
}

/// First index `k` in `[lo, hi)` with `b[k] == c`.
pub fn find_byte(b: &[u8], lo: usize, hi: usize, c: u8) -> (r: Option<usize>)
    requires
        lo <= hi <= b@.len(),
    ensures
        r matches Some(k) ==> find_first(b@.subrange(lo as int, hi as int), c) == Some(k - lo)
            && lo <= k < hi,
        r is None ==> find_first(b@.subrange(lo as int, hi as int), c) is None,
{
    let mut k = lo;
    while k < hi
        invariant
            lo <= k <= hi <= b@.len(),
            forall|j: int| lo <= j < k ==> b@[j] != c,
        decreases hi - k,
    {
        if b[k] == c {
            proof {
                let s = b@.subrange(lo as int, hi as int);
                assert forall|j: int| 0 <= j < k - lo implies s[j] != c by {
                    assert(s[j] == b@[lo + j]);
                }
                lemma_find_first_at(s, c, k - lo);
            }
            return Some(k);
        }
        k = k + 1;
    }
    proof {
        let s = b@.subrange(lo as int, hi as int);
        assert forall|j: int| 0 <= j < s.len() implies s[j] != c by {
            assert(s[j] == b@[lo + j]);
        }
        lemma_find_first_none(s, c);
    }
    None
}

/// Last index `k` in `[lo, hi)` with `b[k] == c`.
pub fn rfind_byte(b: &[u8], lo: usize, hi: usize, c: u8) -> (r: Option<usize>)
    requires
        lo <= hi <= b@.len(),
    ensures
        r matches Some(k) ==> find_last(b@.subrange(lo as int, hi as int), c) == Some(k - lo)
            && lo <= k < hi,
        r is None ==> find_last(b@.subrange(lo as int, hi as int), c) is None,
{
    let mut k = hi;
    while k > lo
        invariant
            lo <= k <= hi <= b@.len(),
            forall|j: int| k <= j < hi ==> b@[j] != c,
        decreases k - lo,
    {
        if b[k - 1] == c {
            proof {
                let s = b@.subrange(lo as int, hi as int);
                assert forall|j: int| k - 1 - lo < j < s.len() implies s[j] != c by {
                    assert(s[j] == b@[lo + j]);
                }
                lemma_find_last_at(s, c, k - 1 - lo);
            }
            return Some(k - 1);
        }
        k = k - 1;
    }
    proof {
        let s = b@.subrange(lo as int, hi as int);
        assert forall|j: int| 0 <= j < s.len() implies s[j] != c by {
            assert(s[j] == b@[lo + j]);
        }
        lemma_find_last_none(s, c);
    }
    None
}

/// The bytes `b[lo..hi]` as a fresh vector.
pub fn copy_range(b: &[u8], lo: usize, hi: usize) -> (r: Vec<u8>)
    requires
        lo <= hi <= b@.len(),
    ensures
        r@ == b@.subrange(lo as int, hi as int),
{
    let mut v: Vec<u8> = Vec::new();
    let mut k = lo;
    while k < hi
        invariant
            lo <= k <= hi <= b@.len(),
            v@ == b@.subrange(lo as int, k as int),
        decreases hi - k,
    {
        v.push(b[k]);
        k = k + 1;
        assert(v@ =~= b@.subrange(lo as int, k as int));
    }
    v
}

/// Appends all of `s` to `v`.
pub fn push_all(v: &mut Vec<u8>, s: &[u8])
    ensures
        final(v)@ == old(v)@ + s@,
{
    let ghost v0 = v@;
    let mut k: usize = 0;
    while k < s.len()
        invariant
            k <= s@.len(),
            v@ == v0 + s@.subrange(0, k as int),
        decreases s@.len() - k,
    {
        v.push(s[k]);
        k = k + 1;
        assert(v@ =~= v0 + s@.subrange(0, k as int));
    }
    assert(s@.subrange(0, s@.len() as int) =~= s@);
}

/// True when `b[lo..hi]` equals `lit`.
pub fn range_eq(b: &[u8], lo: usize, hi: usize, lit: &[u8]) -> (r: bool)
    requires
        lo <= hi <= b@.len(),
    ensures
        r == (b@.subrange(lo as int, hi as int) == lit@),
{
    if hi - lo != lit.len() {
        proof {
            assert(b@.subrange(lo as int, hi as int).len() != lit@.len());
        }
        return false;
    }
    let mut k: usize = 0;
    while k < lit.len()
        invariant
            lo <= hi <= b@.len(),
            hi - lo == lit@.len(),
            k <= lit@.len(),
            forall|j: int| 0 <= j < k ==> b@[lo + j] == lit@[j],
        decreases lit@.len() - k,
    {
        if b[lo + k] != lit[k] {
            proof {
                assert(b@.subrange(lo as int, hi as int)[k as int] != lit@[k as int]);
            }
            return false;
        }
        k = k + 1;
    }
    assert(b@.subrange(lo as int, hi as int) =~= lit@);
    true
}

/// True when `b[lo..hi]` begins with `lit`.
pub fn range_starts_with(b: &[u8], lo: usize, hi: usize, lit: &[u8]) -> (r: bool)
    requires
        lo <= hi <= b@.len(),
    ensures
        r == (lit@.len() <= hi - lo && b@.subrange(lo as int, lo + lit@.len()) == lit@),
{
    if hi - lo < lit.len() {
        return false;
    }
    range_eq(b, lo, lo + lit.len(), lit)
}

// ---------------------------------------------------------------------------
// Decimal numbers
// ---------------------------------------------------------------------------

pub open spec fn is_digit(b: u8) -> bool {
    48 <= b <= 57
}

pub open spec fn all_digits(s: Seq<u8>) -> bool {
    forall|i: int| 0 <= i < s.len() ==> is_digit(#[trigger] s[i])
}

/// The value of a string of decimal digits.
pub open spec fn digits_value(s: Seq<u8>) -> nat
    decreases s.len(),
{
    if s.len() == 0 {
        0
    } else {
        digits_value(s.drop_last()) * 10 + (s.last() - 48) as nat
    }
}

/// What `str::parse` gives for an unsigned integer type whose largest
/// value is `max`: an optional `+` followed by at least one decimal digit,
/// with a value no larger than `max`.
pub open spec fn parse_unsigned(s: Seq<u8>, max: nat) -> Option<nat> {
    let d = if s.len() > 0 && s[0] == 43 {
        s.drop_first()
    } else {
        s
    };
    if d.len() > 0 && all_digits(d) && digits_value(d) <= max {
        Some(digits_value(d))
    } else {
        None
    }
}

proof fn lemma_digits_value_prefix_le(s: Seq<u8>, k: int)
    requires
        0 <= k <= s.len(),
        all_digits(s),
    ensures
        digits_value(s.take(k)) <= digits_value(s),
    decreases s.len() - k,
{
    if k < s.len() {
        lemma_digits_value_prefix_le(s, k + 1);
        assert(s.take(k + 1).drop_last() =~= s.take(k));
    } else {
        assert(s.take(k) =~= s);
    }
}

/// Parses `b[lo..hi]` as an unsigned decimal no larger than `max`, the way
/// `str::parse` does for an unsigned type with that maximum.
pub fn parse_unsigned_range(b: &[u8], lo: usize, hi: usize, max: u64) -> (r: Option<u64>)
    requires
        lo <= hi <= b@.len(),
    ensures
        r matches Some(v) ==> parse_unsigned(b@.subrange(lo as int, hi as int), max as nat) == Some(
            v as nat,
        ),
        r is None ==> parse_unsigned(b@.subrange(lo as int, hi as int), max as nat) is None,
{
    let ghost s = b@.subrange(lo as int, hi as int);
    let mut start = lo;
    if hi > lo && b[lo] == 43 {
        start = lo + 1;
    }
    let ghost d = b@.subrange(start as int, hi as int);
    assert(d =~= (if s.len() > 0 && s[0] == 43 {
        s.drop_first()
    } else {
        s
    }));
    if start == hi {
        return None;
    }
    let mut value: u64 = 0;
    let mut k = start;
    while k < hi
        invariant
            lo <= start <= k <= hi <= b@.len(),
            d == b@.subrange(start as int, hi as int),
            s == b@.subrange(lo as int, hi as int),
            d == (if s.len() > 0 && s[0] == 43 {
                s.drop_first()
            } else {
                s
            }),
            d.len() > 0,
            value as nat == digits_value(d.take(k - start)),
            all_digits(d.take(k - start)),
            value <= max,
        decreases hi - k,
    {
        let c = b[k];
        assert(d.take(k - start + 1).drop_last() =~= d.take(k - start));
        assert(d.take(k - start + 1).last() == c);
        if c < 48 || c > 57 {
            assert(d[k - start] == c);
            assert(!is_digit(d[k - start]));
            assert(!all_digits(d));
            return None;
        }
        let dig = (c - 48) as u64;
        if dig > max || value > (max - dig) / 10 {
            proof {
                assert(value * 10 + dig > max) by (nonlinear_arith)
                    requires
                        dig > max || value > (max - dig) / 10,
                        dig <= 9,
                ;
                assert(digits_value(d.take(k - start + 1)) > max);
                assert forall|i: int| 0 <= i < k - start + 1 implies is_digit(
                    #[trigger] d.take(k - start + 1)[i],
                ) by {
                    if i < k - start {
                        assert(d.take(k - start + 1)[i] == d.take(k - start)[i]);
                    }
                }
                if all_digits(d) {
                    lemma_digits_value_prefix_le(d, k - start + 1);
                }
            }
            return None;
        }
        value = value * 10 + dig;
        k = k + 1;
        assert forall|i: int| 0 <= i < k - start implies is_digit(#[trigger] d.take(k - start)[i]) by {
            if i < k - start - 1 {
                assert(d.take(k - start)[i] == d.take(k - start - 1)[i]);
            }
        }
    }
    assert(d.take(k - start) =~= d);
    Some(value)
}

/// The decimal digits of `n`, most significant first.
pub open spec fn decimal_digits(n: nat) -> Seq<u8>
    decreases n,
{
    if n < 10 {
        seq![(n + 48) as u8]
    } else {
        decimal_digits(n / 10).push(((n % 10) + 48) as u8)
    }
}

pub proof fn lemma_decimal_digits_parse(n: nat)
    ensures
        all_digits(decimal_digits(n)),
        decimal_digits(n).len() > 0,
        decimal_digits(n)[0] != 43,
        digits_value(decimal_digits(n)) == n,
    decreases n,
{
    let d = decimal_digits(n);
    if n < 10 {
        assert(d.drop_last() =~= Seq::<u8>::empty());
        assert(digits_value(d) == digits_value(d.drop_last()) * 10 + (d.last() - 48) as nat);
    } else {
        lemma_decimal_digits_parse(n / 10);
        assert(d.drop_last() =~= decimal_digits(n / 10));
        assert((n / 10) * 10 + n % 10 == n) by (nonlinear_arith);
        assert(d.last() == ((n % 10) + 48) as u8);
        assert((d.last() - 48) as nat == n % 10);
        assert(digits_value(d) == digits_value(d.drop_last()) * 10 + (d.last() - 48) as nat);
        assert forall|i: int| 0 <= i < d.len() implies is_digit(#[trigger] d[i]) by {
            if i < d.len() - 1 {
                assert(d[i] == decimal_digits(n / 10)[i]);
            }
        }
    }
}

/// Appends the decimal digits of `n` to `v`.
pub fn push_decimal(v: &mut Vec<u8>, n: u64)
    ensures
        final(v)@ == old(v)@ + decimal_digits(n as nat),
    decreases n,
{
    if n < 10 {
        v.push((n + 48) as u8);
        assert(decimal_digits(n as nat) =~= seq![(n + 48) as u8]);
    } else {
        push_decimal(v, n / 10);
        v.push(((n % 10) + 48) as u8);
    }
}

// ---------------------------------------------------------------------------
// Unicode whitespace and trimming
// ---------------------------------------------------------------------------

/// The Unicode `White_Space` property, which `char::is_whitespace` tests.
pub open spec fn is_unicode_whitespace(c: char) -> bool {
    let u = c as u32;
    (9 <= u <= 13) || u == 32 || u == 0x85 || u == 0xA0 || u == 0x1680 || (0x2000 <= u <= 0x200A)
        || u == 0x2028 || u == 0x2029 || u == 0x202F || u == 0x205F || u == 0x3000
}

pub open spec fn trim_start_chars(s: Seq<char>) -> Seq<char>
    decreases s.len(),
{
    if s.len() > 0 && is_unicode_whitespace(s[0]) {
        trim_start_chars(s.drop_first())
    } else {
        s
    }
}

pub open spec fn trim_end_chars(s: Seq<char>) -> Seq<char>
    decreases s.len(),
{
    if s.len() > 0 && is_unicode_whitespace(s.last()) {
        trim_end_chars(s.drop_last())
    } else {
        s
    }
}

/// `s` without leading and trailing Unicode whitespace.
pub open spec fn trim_chars(s: Seq<char>) -> Seq<char> {
    trim_end_chars(trim_start_chars(s))
}

/// `str::trim`: the sub-slice without leading and trailing whitespace.
#[verifier::external_body]
pub(crate) fn str_trim(s: &str) -> (r: &str)
    ensures
        r@ == trim_chars(s@),
{
    s.trim()
}

// ---------------------------------------------------------------------------
// UTF-8 conversion
// ---------------------------------------------------------------------------

/// What `String::from_utf8_lossy` gives for bytes that are not valid UTF-8.
pub uninterp spec fn utf8_lossy_invalid(bytes: Seq<u8>) -> Seq<char>;

/// The characters `String::from_utf8_lossy` makes of `bytes`: the decoded
/// text when the bytes are valid UTF-8.
pub open spec fn utf8_lossy(bytes: Seq<u8>) -> Seq<char> {
    if valid_utf8(bytes) {
        decode_utf8(bytes)
    } else {
        utf8_lossy_invalid(bytes)
    }
}

/// `String::from_utf8_lossy`: valid UTF-8 is decoded as it stands; what it
/// makes of invalid input (U+FFFD for each maximal invalid sequence) is
/// named `utf8_lossy_invalid` and not spelled out here.
#[verifier::external_body]
pub(crate) fn string_from_utf8_lossy(b: &[u8]) -> (r: String)
    ensures
        r@ == (if valid_utf8(b@) {
            decode_utf8(b@)
        } else {
            utf8_lossy_invalid(b@)
        }),
{
    String::from_utf8_lossy(b).into_owned()
}

/// `String::from_utf8`: `Some` exactly when the bytes are valid UTF-8.
#[verifier::external_body]
pub(crate) fn string_from_utf8(b: Vec<u8>) -> (r: Option<String>)
    ensures
        r is Some <==> valid_utf8(b@),
        r matches Some(s) ==> s@ == decode_utf8(b@),
{
    String::from_utf8(b).ok()
}

/// A new string made of the characters of `s`.
pub fn string_of(s: &str) -> (r: String)
    ensures
        r@ == s@,
{
    s.to_owned()
}

// ---------------------------------------------------------------------------
// Comparing strings
// ---------------------------------------------------------------------------

/// `str::starts_with` with a string pattern: the UTF-8 of `s` begins with
/// that of `p`.
pub open spec fn text_starts_with(s: Seq<char>, p: Seq<char>) -> bool {
    encode_utf8(p).is_prefix_of(encode_utf8(s))
}

/// `str::ends_with` with a string pattern.
pub open spec fn text_ends_with(s: Seq<char>, p: Seq<char>) -> bool {
    encode_utf8(p).is_suffix_of(encode_utf8(s))
}

/// `str::contains` with an ASCII character.
pub open spec fn text_has_byte(s: Seq<char>, c: u8) -> bool {
    encode_utf8(s).contains(c)
}

pub fn starts_with(s: &str, p: &str) -> (r: bool)
    ensures
        r == text_starts_with(s@, p@),
{
    let b = s.as_bytes();
    let pb = p.as_bytes();
    if pb.len() > b.len() {
        return false;
    }
    range_eq(b, 0, pb.len(), pb)
}

pub fn ends_with(s: &str, p: &str) -> (r: bool)
    ensures
        r == text_ends_with(s@, p@),
{
    let b = s.as_bytes();
    let pb = p.as_bytes();
    if pb.len() > b.len() {
        return false;
    }
    range_eq(b, b.len() - pb.len(), b.len(), pb)
}

pub fn has_byte(s: &str, c: u8) -> (r: bool)
    ensures
        r == text_has_byte(s@, c),
{
    let b = s.as_bytes();
    let r = find_byte(b, 0, b.len(), c);
    proof {
        assert(b@.subrange(0, b@.len() as int) =~= b@);
        lemma_find_first_char(b@, c);
    }
    r.is_some()
}

/// Two strings are equal exactly when their UTF-8 bytes are.
pub proof fn lemma_encode_utf8_injective(a: Seq<char>, b: Seq<char>)
    requires
        encode_utf8(a) == encode_utf8(b),
    ensures
        a == b,
{
    encode_utf8_decode_utf8(a);
    encode_utf8_decode_utf8(b);
}

/// `==` on strings.
pub fn str_eq(a: &str, b: &str) -> (r: bool)
    ensures
        r == (a@ == b@),
{
    let ab = a.as_bytes();
    let bb = b.as_bytes();
    let r = range_eq(ab, 0, ab.len(), bb);
    proof {
        assert(ab@.subrange(0, ab@.len() as int) =~= ab@);
        if r {
            lemma_encode_utf8_injective(a@, b@);
        }
    }
    r
}

// ---------------------------------------------------------------------------
// Ordering strings
// ---------------------------------------------------------------------------

/// Lexicographic order on bytes, a proper prefix first.
pub open spec fn bytes_lt(a: Seq<u8>, b: Seq<u8>) -> bool
    decreases a.len(),
{
    if a.len() == 0 {
        b.len() > 0
    } else if b.len() == 0 {
        false
    } else if a[0] != b[0] {
        a[0] < b[0]
    } else {
        bytes_lt(a.drop_first(), b.drop_first())
    }
}

/// The order of `String`: lexicographic on the UTF-8 bytes.
pub open spec fn text_lt(a: Seq<char>, b: Seq<char>) -> bool {
    bytes_lt(encode_utf8(a), encode_utf8(b))
}

pub proof fn lemma_bytes_lt_irreflexive(a: Seq<u8>)
    ensures
        !bytes_lt(a, a),
    decreases a.len(),
{
    if a.len() > 0 {
        lemma_bytes_lt_irreflexive(a.drop_first());
    }
}

pub proof fn lemma_bytes_lt_trans(a: Seq<u8>, b: Seq<u8>, c: Seq<u8>)
    requires
        bytes_lt(a, b),
        bytes_lt(b, c),
    ensures
        bytes_lt(a, c),
    decreases a.len(),
{
    if a.len() > 0 && b.len() > 0 && c.len() > 0 && a[0] == b[0] && b[0] == c[0] {
        lemma_bytes_lt_trans(a.drop_first(), b.drop_first(), c.drop_first());
    }
}

pub proof fn lemma_bytes_lt_total(a: Seq<u8>, b: Seq<u8>)
    ensures
        a == b || bytes_lt(a, b) || bytes_lt(b, a),
        !(bytes_lt(a, b) && bytes_lt(b, a)),
    decreases a.len(),
{
    if a.len() > 0 && b.len() > 0 && a[0] == b[0] {
        lemma_bytes_lt_total(a.drop_first(), b.drop_first());
        if a.drop_first() == b.drop_first() {
            assert(a =~= seq![a[0]] + a.drop_first());
            assert(b =~= seq![b[0]] + b.drop_first());
        }
    } else if a.len() == 0 && b.len() == 0 {
        assert(a =~= b);
    }
}

/// The order of strings is total and strict.
pub proof fn lemma_text_lt_total(a: Seq<char>, b: Seq<char>)
    ensures
        a == b || text_lt(a, b) || text_lt(b, a),
        !(text_lt(a, b) && text_lt(b, a)),
        !text_lt(a, a),
{
    lemma_bytes_lt_total(encode_utf8(a), encode_utf8(b));
    lemma_bytes_lt_irreflexive(encode_utf8(a));
    if encode_utf8(a) == encode_utf8(b) {
        lemma_encode_utf8_injective(a, b);
    }
}

pub proof fn lemma_text_lt_trans(a: Seq<char>, b: Seq<char>, c: Seq<char>)
    requires
        text_lt(a, b),
        text_lt(b, c),
    ensures
        text_lt(a, c),
{
    lemma_bytes_lt_trans(encode_utf8(a), encode_utf8(b), encode_utf8(c));
}

/// `a < b` for strings.
pub fn str_less(a: &str, b: &str) -> (r: bool)
    ensures
        r == text_lt(a@, b@),
{
    let x = a.as_bytes();
    let y = b.as_bytes();
    let mut i: usize = 0;
    assert(x@.skip(0) =~= x@);
    assert(y@.skip(0) =~= y@);
    while i < x.len() && i < y.len()
        invariant
            i <= x@.len(),
            i <= y@.len(),
            x@ == encode_utf8(a@),
            y@ == encode_utf8(b@),
            bytes_lt(x@, y@) == bytes_lt(x@.skip(i as int), y@.skip(i as int)),
        decreases x@.len() - i,
    {
        assert(x@.skip(i as int)[0] == x@[i as int]);
        assert(y@.skip(i as int)[0] == y@[i as int]);
        assert(x@.skip(i as int).len() > 0 && y@.skip(i as int).len() > 0);
        if x[i] != y[i] {
            assert(bytes_lt(x@.skip(i as int), y@.skip(i as int)) == (x@[i as int] < y@[i as int]));
            return x[i] < y[i];
        }
        assert(x@.skip(i as int).drop_first() =~= x@.skip(i + 1));
        assert(y@.skip(i as int).drop_first() =~= y@.skip(i + 1));
        i = i + 1;
    }
    assert(x@.skip(i as int).len() == x@.len() - i);
    assert(y@.skip(i as int).len() == y@.len() - i);
    x.len() - i < y.len() - i
}

// ---------------------------------------------------------------------------
// Trimming twice
// ---------------------------------------------------------------------------

proof fn lemma_trim_start_shape(s: Seq<char>)
    ensures
        trim_start_chars(s).len() > 0 ==> !is_unicode_whitespace(trim_start_chars(s)[0]),
        trim_start_chars(trim_start_chars(s)) == trim_start_chars(s),
        trim_start_chars(s).len() > 0 ==> trim_start_chars(s).last() == s.last(),
    decreases s.len(),
{
    if s.len() > 0 && is_unicode_whitespace(s[0]) {
        lemma_trim_start_shape(s.drop_first());
    }
}

proof fn lemma_trim_end_shape(s: Seq<char>)
    ensures
        trim_end_chars(s).len() > 0 ==> !is_unicode_whitespace(trim_end_chars(s).last()),
        trim_end_chars(trim_end_chars(s)) == trim_end_chars(s),
        trim_end_chars(s).len() > 0 ==> trim_end_chars(s)[0] == s[0],
        trim_end_chars(s).len() == 0 || (s.len() > 0 && trim_end_chars(s)[0] == s[0]),
    decreases s.len(),
{
    if s.len() > 0 && is_unicode_whitespace(s.last()) {
        lemma_trim_end_shape(s.drop_last());
    }
}

/// Trimming what is trimmed changes nothing.
pub proof fn lemma_trim_idempotent(s: Seq<char>)
    ensures
        trim_chars(trim_chars(s)) == trim_chars(s),
{
    let a = trim_start_chars(s);
    let t = trim_end_chars(a);
    lemma_trim_start_shape(s);
    lemma_trim_end_shape(a);
    lemma_trim_end_shape(t);
    if t.len() > 0 {
        assert(t[0] == a[0]);
        assert(trim_start_chars(t) == t);
    } else {
        assert(trim_start_chars(t) == t);
    }
}

} // verus!
