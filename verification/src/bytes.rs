//! Byte strings as an ordered key-value store sees them: equality, prefixes and
//! the lexicographic order in which keys are scanned.

use vstd::prelude::*;
use byteorder::{BigEndian, ByteOrder};

verus! {

/// `p` is a prefix of `k`.
pub open spec fn is_prefix(p: Seq<u8>, k: Seq<u8>) -> bool {
    p.len() <= k.len() && forall|i: int| 0 <= i < p.len() ==> p[i] == k[i]
}

/// Lexicographic comparison of the suffixes of `a` and `b` that start at `i`.
pub open spec fn lex_lt_from(a: Seq<u8>, b: Seq<u8>, i: int) -> bool
    decreases a.len() - i,
{
    if i < 0 || i >= b.len() {
        false
    } else if i >= a.len() {
        true
    } else if a[i] != b[i] {
        a[i] < b[i]
    } else {
        lex_lt_from(a, b, i + 1)
    }
}

/// Strict lexicographic order on byte strings: the order of keys in the store.
pub open spec fn lex_lt(a: Seq<u8>, b: Seq<u8>) -> bool {
    lex_lt_from(a, b, 0)
}

/// Non-strict lexicographic order.
pub open spec fn lex_le(a: Seq<u8>, b: Seq<u8>) -> bool {
    a == b || lex_lt(a, b)
}

/// `a` and `b` hold the same bytes at every index below `i`.
pub open spec fn agree_below(a: Seq<u8>, b: Seq<u8>, i: int) -> bool {
    0 <= i <= a.len() && i <= b.len() && forall|j: int| 0 <= j < i ==> a[j] == b[j]
}

/// The comparison may skip any common prefix.
pub proof fn lemma_lex_skip_common(a: Seq<u8>, b: Seq<u8>, i: int)
    requires
        agree_below(a, b, i),
    ensures
        lex_lt(a, b) == lex_lt_from(a, b, i),
    decreases i,
{
    if i > 0 {
        lemma_lex_skip_common(a, b, i - 1);
    }
}

/// No byte string is below itself.
pub proof fn lemma_lex_irreflexive(a: Seq<u8>)
    ensures
        !lex_lt(a, a),
{
    lemma_lex_skip_common(a, a, a.len() as int);
}

/// Of two different byte strings exactly one is below the other.
pub proof fn lemma_lex_trichotomy(a: Seq<u8>, b: Seq<u8>)
    ensures
        a != b ==> (lex_lt(a, b) != lex_lt(b, a)),
        a == b ==> !lex_lt(a, b) && !lex_lt(b, a),
{
    lemma_lex_irreflexive(a);
    if a != b {
        lemma_trichotomy_from(a, b, 0);
    }
}

proof fn lemma_trichotomy_from(a: Seq<u8>, b: Seq<u8>, i: int)
    requires
        agree_below(a, b, i),
        a != b,
    ensures
        lex_lt_from(a, b, i) != lex_lt_from(b, a, i),
    decreases a.len() - i,
{
    if i >= a.len() || i >= b.len() {
        if a.len() == b.len() {
            assert(a =~= b);
        }
    } else if a[i] == b[i] {
        lemma_trichotomy_from(a, b, i + 1);
    }
}

/// The order is transitive.
pub proof fn lemma_lex_transitive(a: Seq<u8>, b: Seq<u8>, c: Seq<u8>)
    requires
        lex_lt(a, b),
        lex_lt(b, c),
    ensures
        lex_lt(a, c),
{
    lemma_transitive_from(a, b, c, 0);
}

proof fn lemma_transitive_from(a: Seq<u8>, b: Seq<u8>, c: Seq<u8>, i: int)
    requires
        0 <= i,
        lex_lt_from(a, b, i),
        lex_lt_from(b, c, i),
    ensures
        lex_lt_from(a, c, i),
    decreases a.len() - i,
{
    if i < a.len() && a[i] == b[i] && b[i] == c[i] {
        lemma_transitive_from(a, b, c, i + 1);
    }
}

/// A proper prefix is below every string that extends it.
pub proof fn lemma_prefix_is_le(p: Seq<u8>, k: Seq<u8>)
    requires
        is_prefix(p, k),
    ensures
        lex_le(p, k),
{
    if p.len() == k.len() {
        assert(p =~= k);
    } else {
        lemma_lex_skip_common(p, k, p.len() as int);
    }
}

/// Whether two byte slices hold the same bytes.
pub fn bytes_eq(a: &[u8], b: &[u8]) -> (same: bool)
    ensures
        same == (a@ == b@),
{
    if a.len() != b.len() {
        return false;
    }
    let mut i: usize = 0;
    while i < a.len()
        invariant
            a.len() == b.len(),
            agree_below(a@, b@, i as int),
        decreases a.len() - i,
    {
        if a[i] != b[i] {
            return false;
        }
        i += 1;
    }
    assert(a@ =~= b@);
    true
}

/// Whether `a` sorts strictly before `b`.
pub fn bytes_lt(a: &[u8], b: &[u8]) -> (below: bool)
    ensures
        below == lex_lt(a@, b@),
{
    let mut i: usize = 0;
    while i < a.len() && i < b.len()
        invariant
            agree_below(a@, b@, i as int),
        decreases a.len() - i,
    {
        if a[i] != b[i] {
            proof {
                lemma_lex_skip_common(a@, b@, i as int);
            }
            return a[i] < b[i];
        }
        i += 1;
    }
    proof {
        lemma_lex_skip_common(a@, b@, i as int);
    }
    i < b.len()
}

/// Whether `p` is a prefix of `k`.
pub fn has_prefix(k: &[u8], p: &[u8]) -> (yes: bool)
    ensures
        yes == is_prefix(p@, k@),
{
    if p.len() > k.len() {
        return false;
    }
    let mut i: usize = 0;
    while i < p.len()
        invariant
            p.len() <= k.len(),
            agree_below(p@, k@, i as int),
        decreases p.len() - i,
    {
        if p[i] != k[i] {
            return false;
        }
        i += 1;
    }
    true
}

/// Whether two strings hold the same text.
pub fn str_eq(a: &str, b: &str) -> (same: bool)
    ensures
        same == (a@ == b@),
{
    proof {
        vstd::utf8::encode_utf8_decode_utf8(a@);
        vstd::utf8::encode_utf8_decode_utf8(b@);
    }
    bytes_eq(a.as_bytes(), b.as_bytes())
}

/// Whether `a` sorts strictly before `b` in the byte order of their UTF-8 text.
pub fn str_lt(a: &str, b: &str) -> (below: bool)
    ensures
        below == text_lt(a@, b@),
{
    bytes_lt(a.as_bytes(), b.as_bytes())
}

/// The order of names: the lexicographic order of their UTF-8 encodings.
pub open spec fn text_lt(a: Seq<char>, b: Seq<char>) -> bool {
    lex_lt(vstd::utf8::encode_utf8(a), vstd::utf8::encode_utf8(b))
}

/// Different names have different encodings, so one is below the other.
pub proof fn lemma_text_trichotomy(a: Seq<char>, b: Seq<char>)
    ensures
        a != b ==> (text_lt(a, b) != text_lt(b, a)),
        a == b ==> !text_lt(a, b),
{
    vstd::utf8::encode_utf8_decode_utf8(a);
    vstd::utf8::encode_utf8_decode_utf8(b);
    lemma_lex_trichotomy(vstd::utf8::encode_utf8(a), vstd::utf8::encode_utf8(b));
}

/// Byte `i` of `n` written in big-endian order, byte 0 being the most
/// significant.
pub open spec fn be_byte(n: u64, i: int) -> u8 {
    ((n >> ((8 * (7 - i)) as u64)) & 0xff) as u8
}

/// `byteorder::BigEndian::write_u64` on a buffer of eight bytes: the buffer
/// then holds `n` with the most significant byte first.
#[verifier::external_body]
pub(crate) fn big_endian_u64(n: u64) -> (bytes: [u8; 8])
    ensures
        forall|i: int| 0 <= i < 8 ==> bytes@[i] == be_byte(n, i),
{
    let mut bytes = [0u8; 8];
    BigEndian::write_u64(&mut bytes, n);
    bytes
}

/// The eight bytes of `n`, most significant first.
pub open spec fn be_bytes(n: u64) -> Seq<u8> {
    Seq::new(8, |i: int| be_byte(n, i))
}

/// `p` with its last byte raised by one: the first byte string above every
/// string that starts with `p`.
pub open spec fn bump_last(p: Seq<u8>) -> Seq<u8> {
    p.update(p.len() - 1, (p.last() + 1) as u8)
}

/// `k` lies in the range from `start`, inclusive, to `end`, exclusive.
pub open spec fn in_range(k: Seq<u8>, start: Seq<u8>, end: Seq<u8>) -> bool {
    lex_le(start, k) && lex_lt(k, end)
}

/// The range from a prefix to the prefix with its last byte raised holds
/// exactly the byte strings that start with the prefix.
pub proof fn lemma_prefix_range(p: Seq<u8>, k: Seq<u8>)
    requires
        p.len() > 0,
        p.last() < 255,
    ensures
        in_range(k, p, bump_last(p)) == is_prefix(p, k),
{
    let end = bump_last(p);
    let n = p.len() as int;
    if is_prefix(p, k) {
        lemma_prefix_is_le(p, k);
        assert(agree_below(k, end, n - 1));
        lemma_lex_skip_common(k, end, n - 1);
    } else {
        // the first place where `k` leaves `p`
        let j = first_departure(p, k, 0);
        lemma_first_departure(p, k, 0);
        lemma_lex_skip_common(p, k, j);
        lemma_lex_skip_common(k, p, j);
        lemma_lex_trichotomy(p, k);
        if j < n - 1 {
            assert(agree_below(k, end, j));
            lemma_lex_skip_common(k, end, j);
        } else if j < k.len() {
            assert(agree_below(k, end, j));
            lemma_lex_skip_common(k, end, j);
            if k[j] == end[j] {
                assert(!lex_lt_from(k, end, j + 1));
            }
        }
    }
}

/// The first index at or after `i` where `k` ends or differs from `p`; the
/// length of `p` where `p` is a prefix of `k` from `i` on.
pub open spec fn first_departure(p: Seq<u8>, k: Seq<u8>, i: int) -> int
    decreases p.len() - i,
{
    if 0 <= i < p.len() && i < k.len() && p[i] == k[i] {
        first_departure(p, k, i + 1)
    } else {
        i
    }
}

proof fn lemma_first_departure(p: Seq<u8>, k: Seq<u8>, i: int)
    requires
        agree_below(p, k, i),
        !is_prefix(p, k),
    ensures
        i <= first_departure(p, k, i) < p.len(),
        agree_below(p, k, first_departure(p, k, i)),
        first_departure(p, k, i) < k.len() ==> p[first_departure(p, k, i)] != k[first_departure(p, k, i)],
    decreases p.len() - i,
{
    if i < p.len() && i < k.len() && p[i] == k[i] {
        lemma_first_departure(p, k, i + 1);
    }
}

/// `p` with its last byte raised by one.
pub fn range_end(p: &Vec<u8>) -> (end: Vec<u8>)
    requires
        p@.len() > 0,
        p@.last() < 255,
    ensures
        end@ == bump_last(p@),
{
    let mut end: Vec<u8> = Vec::new();
    let mut i: usize = 0;
    while i + 1 < p.len()
        invariant
            i + 1 <= p.len(),
            end@ == p@.subrange(0, i as int),
        decreases p.len() - i,
    {
        end.push(p[i]);
        assert(end@ =~= p@.subrange(0, i + 1));
        i += 1;
    }
    end.push(p[i] + 1);
    assert(end@ =~= bump_last(p@));
    end
}

/// Appends `more` to `bytes`.
pub fn push_all(bytes: &mut Vec<u8>, more: &[u8])
    ensures
        final(bytes)@ == old(bytes)@ + more@,
{
    let mut i: usize = 0;
    while i < more.len()
        invariant
            i <= more.len(),
            bytes@ == old(bytes)@ + more@.subrange(0, i as int),
        decreases more.len() - i,
    {
        bytes.push(more[i]);
        assert(bytes@ =~= old(bytes)@ + more@.subrange(0, i + 1));
        i += 1;
    }
    assert(more@.subrange(0, i as int) =~= more@);
}

/// Byte `i` of `n`, by shifting and masking.
proof fn lemma_be_byte(n: u64, i: int)
    requires
        0 <= i < 8,
    ensures
        be_byte(n, i) == ((n >> ((56 - 8 * i) as u64)) & 0xff),
{
    let s = (56 - 8 * i) as u64;
    assert(8 * (7 - i) == 56 - 8 * i);
    assert(((n >> s) & 0xff) < 256) by (bit_vector);
}

/// Two numbers that agree from some bit on upwards and of which the first
/// has the lesser byte just below that bit: the first is the lesser number.
proof fn lemma_lower_byte_decides(x: u64, y: u64, s: u64)
    requires
        s == 0 || s == 8 || s == 16 || s == 24 || s == 32 || s == 40 || s == 48 || s == 56,
        s < 56 ==> (x >> ((s + 8) as u64)) == (y >> ((s + 8) as u64)),
        ((x >> s) & 0xff) < ((y >> s) & 0xff),
    ensures
        x < y,
{
    if s == 56 {
        assert(((x >> 56) & 0xff) < ((y >> 56) & 0xff) ==> x < y) by (bit_vector);
    } else if s == 48 {
        assert((x >> 56) == (y >> 56) && ((x >> 48) & 0xff) < ((y >> 48) & 0xff) ==> x < y) by (bit_vector);
    } else if s == 40 {
        assert((x >> 48) == (y >> 48) && ((x >> 40) & 0xff) < ((y >> 40) & 0xff) ==> x < y) by (bit_vector);
    } else if s == 32 {
        assert((x >> 40) == (y >> 40) && ((x >> 32) & 0xff) < ((y >> 32) & 0xff) ==> x < y) by (bit_vector);
    } else if s == 24 {
        assert((x >> 32) == (y >> 32) && ((x >> 24) & 0xff) < ((y >> 24) & 0xff) ==> x < y) by (bit_vector);
    } else if s == 16 {
        assert((x >> 24) == (y >> 24) && ((x >> 16) & 0xff) < ((y >> 16) & 0xff) ==> x < y) by (bit_vector);
    } else if s == 8 {
        assert((x >> 16) == (y >> 16) && ((x >> 8) & 0xff) < ((y >> 8) & 0xff) ==> x < y) by (bit_vector);
    } else {
        assert((x >> 8) == (y >> 8) && ((x >> 0) & 0xff) < ((y >> 0) & 0xff) ==> x < y) by (bit_vector);
    }
}

/// Two numbers that agree above a byte and in that byte agree from that byte
/// on upwards.
proof fn lemma_agree_one_more(x: u64, y: u64, s: u64)
    requires
        s == 0 || s == 8 || s == 16 || s == 24 || s == 32 || s == 40 || s == 48 || s == 56,
        s < 56 ==> (x >> ((s + 8) as u64)) == (y >> ((s + 8) as u64)),
        ((x >> s) & 0xff) == ((y >> s) & 0xff),
    ensures
        (x >> s) == (y >> s),
{
    if s == 56 {
        assert(((x >> 56) & 0xff) == ((y >> 56) & 0xff) ==> (x >> 56) == (y >> 56)) by (bit_vector);
    } else if s == 48 {
        assert((x >> 56) == (y >> 56) && ((x >> 48) & 0xff) == ((y >> 48) & 0xff) ==> (x >> 48) == (y >> 48))
            by (bit_vector);
    } else if s == 40 {
        assert((x >> 48) == (y >> 48) && ((x >> 40) & 0xff) == ((y >> 40) & 0xff) ==> (x >> 40) == (y >> 40))
            by (bit_vector);
    } else if s == 32 {
        assert((x >> 40) == (y >> 40) && ((x >> 32) & 0xff) == ((y >> 32) & 0xff) ==> (x >> 32) == (y >> 32))
            by (bit_vector);
    } else if s == 24 {
        assert((x >> 32) == (y >> 32) && ((x >> 24) & 0xff) == ((y >> 24) & 0xff) ==> (x >> 24) == (y >> 24))
            by (bit_vector);
    } else if s == 16 {
        assert((x >> 24) == (y >> 24) && ((x >> 16) & 0xff) == ((y >> 16) & 0xff) ==> (x >> 16) == (y >> 16))
            by (bit_vector);
    } else if s == 8 {
        assert((x >> 16) == (y >> 16) && ((x >> 8) & 0xff) == ((y >> 8) & 0xff) ==> (x >> 8) == (y >> 8))
            by (bit_vector);
    } else {
        assert((x >> 8) == (y >> 8) && ((x >> 0) & 0xff) == ((y >> 0) & 0xff) ==> (x >> 0) == (y >> 0))
            by (bit_vector);
    }
}

/// Where the big-endian bytes of two numbers agree below `i`, the order of
/// the rest of the bytes is the order of the numbers.
proof fn lemma_be_order_from(x: u64, y: u64, i: int)
    requires
        0 <= i <= 8,
        agree_below(be_bytes(x), be_bytes(y), i),
        0 < i ==> (x >> ((64 - 8 * i) as u64)) == (y >> ((64 - 8 * i) as u64)),
    ensures
        lex_lt_from(be_bytes(x), be_bytes(y), i) == (x < y),
    decreases 8 - i,
{
    if i == 8 {
        assert((x >> 0) == x && (y >> 0) == y) by (bit_vector);
    } else {
        let s = (56 - 8 * i) as u64;
        lemma_be_byte(x, i);
        lemma_be_byte(y, i);
        assert(be_bytes(x)[i] == be_byte(x, i));
        assert(be_bytes(y)[i] == be_byte(y, i));
        if be_byte(x, i) == be_byte(y, i) {
            lemma_agree_one_more(x, y, s);
            lemma_be_order_from(x, y, i + 1);
        } else if be_byte(x, i) < be_byte(y, i) {
            lemma_lower_byte_decides(x, y, s);
        } else {
            lemma_lower_byte_decides(y, x, s);
        }
    }
}

/// The byte order of numbers written big-endian is the order of the numbers.
pub proof fn lemma_be_order(x: u64, y: u64)
    ensures
        lex_lt(be_bytes(x), be_bytes(y)) == (x < y),
{
    lemma_be_order_from(x, y, 0);
}

} // verus!
