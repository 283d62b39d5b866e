//! Content-derived identifiers.

use vstd::prelude::*;
use vstd::string::*;
use vstd::utf8::*;

use crate::clock::unix_millis;

verus! {

/// The 32 bytes that BLAKE3 makes of `bytes`.
pub uninterp spec fn blake3_digest(bytes: Seq<u8>) -> Seq<u8>;

/// `blake3::hash`: the digest of the input, a function of its bytes alone, 32
/// bytes long.
#[verifier::external_body]
pub(crate) fn blake3_hash(bytes: &[u8]) -> (r: Vec<u8>)
    ensures
        r@ == blake3_digest(bytes@),
        r@.len() == 32,
{
    blake3::hash(bytes).as_bytes().to_vec()
}

/// The lower-case hexadecimal digit of value `d`.
pub open spec fn hex_digit(d: int) -> char {
    "0123456789abcdef"@[d]
}

/// `bytes` in lower-case hexadecimal, two digits a byte, high digit first.
pub open spec fn hex_text(bytes: Seq<u8>) -> Seq<char> {
    Seq::new(
        2 * bytes.len(),
        |i: int|
            hex_digit(
                if i % 2 == 0 {
                    bytes[i / 2] as int / 16
                } else {
                    bytes[i / 2] as int % 16
                },
            ),
    )
}

/// `hex::encode`: each byte as two lower-case hexadecimal digits.
#[verifier::external_body]
pub(crate) fn hex_encode(bytes: &[u8]) -> (r: String)
    ensures
        r@ == hex_text(bytes@),
{
    hex::encode(bytes)
}

/// The content hash of a text: the BLAKE3 digest of its UTF-8 bytes, in
/// hexadecimal.
pub open spec fn content_hash_of(text: Seq<char>) -> Seq<char> {
    hex_text(blake3_digest(encode_utf8(text)))
}

/// The content hash of `text`: 64 lower-case hexadecimal digits.
pub fn content_hash(text: &str) -> (r: String)
    ensures
        r@ == content_hash_of(text@),
        r@.len() == 64,
{
    let digest = blake3_hash(text.as_bytes());
    hex_encode(digest.as_slice())
}

// ---------------------------------------------------------------------------
// ULIDs
// ---------------------------------------------------------------------------

/// The Crockford base-32 digit of value `d`.
pub open spec fn base32_digit(d: int) -> char {
    "0123456789ABCDEFGHJKMNPQRSTVWXYZ"@[d]
}

/// The lowest `width` base-32 digits of `n`, highest first.
pub open spec fn base32_text(n: int, width: nat) -> Seq<char>
    decreases width,
{
    if width == 0 {
        Seq::empty()
    } else {
        base32_text(n / 32, (width - 1) as nat).push(base32_digit(n % 32))
    }
}

/// The ULID of a time in milliseconds and 80 further bits: 26 base-32 digits
/// that sort by time.
pub open spec fn ulid_text(millis: int, high: int, low: int) -> Seq<char> {
    base32_text(
        (millis % 0x1_0000_0000_0000) * 0x1_0000_0000_0000_0000_0000 + high
            * 0x1_0000_0000_0000_0000 + low,
        26,
    )
}

/// Whether `s` is a ULID.
pub open spec fn is_ulid(s: Seq<char>) -> bool {
    exists|millis: u64, high: u16, low: u64|
        s == #[trigger] ulid_text(millis as int, high as int, low as int)
}

fn base32_encode(n: u128, width: usize) -> (r: String)
    ensures
        r@ == base32_text(n as int, width as nat),
    decreases width,
{
    if width == 0 {
        return String::new();
    }
    let mut out = base32_encode(n / 32, width - 1);
    proof {
        reveal_strlit("0123456789ABCDEFGHJKMNPQRSTVWXYZ");
    }
    out.push("0123456789ABCDEFGHJKMNPQRSTVWXYZ".get_char((n % 32) as usize));
    out
}

/// The ULID of a time in milliseconds and 80 further bits.
pub fn ulid_from_parts(millis: u64, high: u16, low: u64) -> (r: String)
    ensures
        r@ == ulid_text(millis as int, high as int, low as int),
{
    let time: u128 = (millis % 0x1_0000_0000_0000) as u128;
    let n: u128 = time * 0x1_0000_0000_0000_0000_0000 + (high as u128) * 0x1_0000_0000_0000_0000
        + low as u128;
    base32_encode(n, 26)
}

/// `std::hash::RandomState`: what a freshly seeded hasher makes of no input.
/// Nothing is claimed of the result.
#[verifier::external_body]
fn random_word() -> (r: u64) {
    let state = std::hash::RandomState::new();
    std::hash::Hasher::finish(&std::hash::BuildHasher::build_hasher(&state))
}

/// A fresh ULID of the present moment.
pub fn new_ulid() -> (r: String)
    ensures
        is_ulid(r@),
{
    let millis: u64 = unix_millis();
    let high: u16 = (random_word() % 0x1_0000) as u16;
    let low: u64 = random_word();
    ulid_from_parts(millis, high, low)
}

/// Hexadecimal tells bytes apart: two digits of 0 to 9 and a to f for each.
pub proof fn law_hex_tells_bytes_apart(a: Seq<u8>, b: Seq<u8>)
    ensures
        hex_text(a).len() == 2 * a.len(),
        hex_text(a) == hex_text(b) ==> a == b,
        forall|i: int|
            0 <= i < hex_text(a).len() ==> '0' <= #[trigger] hex_text(a)[i] <= '9' || 'a' <= hex_text(
                a,
            )[i] <= 'f',
{
    reveal_strlit("0123456789abcdef");
    let x = hex_text(a);
    assert forall|i: int| 0 <= i < x.len() implies '0' <= #[trigger] x[i] <= '9' || 'a' <= x[i]
        <= 'f' by {
        lemma_hex_digit(a[i / 2] as int / 16, 0);
        lemma_hex_digit(a[i / 2] as int % 16, 0);
    }
    if hex_text(a) == hex_text(b) {
        assert(hex_text(b).len() == 2 * b.len());
        assert(a.len() == b.len());
        assert forall|i: int| 0 <= i < a.len() implies a[i] == b[i] by {
            assert(hex_text(a)[2 * i] == hex_text(b)[2 * i]);
            assert(hex_text(a)[2 * i + 1] == hex_text(b)[2 * i + 1]);
            assert((2 * i) / 2 == i && (2 * i + 1) / 2 == i);
            lemma_hex_digit(a[i] as int / 16, b[i] as int / 16);
            lemma_hex_digit(a[i] as int % 16, b[i] as int % 16);
        }
        assert(a =~= b);
    }
}

proof fn lemma_hex_digit(d: int, e: int)
    requires
        0 <= d < 16,
        0 <= e < 16,
    ensures
        hex_digit(d) == hex_digit(e) ==> d == e,
        '0' <= hex_digit(d) <= '9' || 'a' <= hex_digit(d) <= 'f',
{
    reveal_strlit("0123456789abcdef");
}

/// The content hash of a text is its digest in hexadecimal, and depends on every
/// byte of the text as the digest does.
pub proof fn law_content_hash(a: Seq<char>, b: Seq<char>)
    ensures
        content_hash_of(a) == content_hash_of(b) <==> blake3_digest(encode_utf8(a))
            == blake3_digest(encode_utf8(b)),
        content_hash_of(a).len() == 2 * blake3_digest(encode_utf8(a)).len(),
        forall|i: int|
            0 <= i < blake3_digest(encode_utf8(a)).len() ==> content_hash_of(a)[2 * i] == hex_digit(
                #[trigger] blake3_digest(encode_utf8(a))[i] as int / 16,
            ),
{
    law_hex_tells_bytes_apart(blake3_digest(encode_utf8(a)), blake3_digest(encode_utf8(b)));
}

/// A ULID has 26 digits.
pub proof fn law_ulid_length(millis: int, high: int, low: int)
    ensures
        ulid_text(millis, high, low).len() == 26,
{
    lemma_base32_len(
        (millis % 0x1_0000_0000_0000) * 0x1_0000_0000_0000_0000_0000 + high
            * 0x1_0000_0000_0000_0000 + low,
        26,
    );
}

proof fn lemma_base32_len(n: int, width: nat)
    ensures
        base32_text(n, width).len() == width,
    decreases width,
{
    if width > 0 {
        lemma_base32_len(n / 32, (width - 1) as nat);
    }
}

/// A ULID has 26 digits, each of them one of 32.
pub proof fn law_ulid_form(s: Seq<char>, i: int)
    requires
        is_ulid(s),
    ensures
        s.len() == 26,
        0 <= i < 26 ==> exists|d: int| 0 <= d < 32 && s[i] == #[trigger] base32_digit(d),
{
    let (millis, high, low) = choose|millis: u64, high: u16, low: u64|
        s == #[trigger] ulid_text(millis as int, high as int, low as int);
    law_ulid_length(millis as int, high as int, low as int);
    let n = (millis as int % 0x1_0000_0000_0000) * 0x1_0000_0000_0000_0000_0000 + high as int
        * 0x1_0000_0000_0000_0000 + low as int;
    if 0 <= i < 26 {
        lemma_base32_digits(n, 26, i);
    }
}

proof fn lemma_base32_digits(n: int, width: nat, i: int)
    requires
        0 <= i < width,
        0 <= n,
    ensures
        base32_text(n, width).len() == width,
        exists|d: int| 0 <= d < 32 && base32_text(n, width)[i] == #[trigger] base32_digit(d),
    decreases width,
{
    lemma_base32_len(n, width);
    lemma_base32_len(n / 32, (width - 1) as nat);
    if i < width - 1 {
        lemma_base32_digits(n / 32, (width - 1) as nat, i);
        let d = choose|d: int|
            0 <= d < 32 && base32_text(n / 32, (width - 1) as nat)[i] == #[trigger] base32_digit(d);
        assert(base32_text(n, width)[i] == base32_digit(d));
    } else {
        assert(base32_text(n, width)[i] == base32_digit(n % 32));
    }
}

} // verus!
