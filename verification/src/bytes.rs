//! Hashes, random identifiers, and bytes written as text.
use rand::Rng;
use sha1::Digest;
use vstd::prelude::*;

verus! {

/// The SHA-1 digest of `bytes`, as the crate `sha1` computes it.
pub uninterp spec fn sha1_digest(bytes: Seq<u8>) -> Seq<u8>;

/// `sha1::Sha1`, fed with `bytes` and finalized: the digest is a function of the bytes alone and
/// has twenty bytes.
#[verifier::external_body]
pub fn sha1_hash(bytes: &[u8]) -> (hash: [u8; 20])
    ensures
        hash@ == sha1_digest(bytes@),
{
    let mut hasher = sha1::Sha1::new();
    hasher.update(bytes);
    hasher.finalize().into()
}

/// `rand::Rng::gen_range` on the thread's generator: a number between the bounds, both of them
/// possible. Which one it is, is left to chance. The call panics on an empty range.
#[verifier::external_body]
fn random_between(low: u8, high: u8) -> (n: u8)
    requires
        low <= high,
    ensures
        low <= n <= high,
{
    rand::thread_rng().gen_range(low..=high)
}

/// `rand::Rng::fill` on the thread's generator: twenty bytes of which nothing is promised.
#[verifier::external_body]
pub fn random_bytes() -> (bytes: [u8; 20]) {
    let mut bytes = [0u8; 20];
    rand::thread_rng().fill(&mut bytes);
    bytes
}

/// Whether `b` is an ASCII letter or digit.
pub open spec fn is_alphanumeric(b: u8) -> bool {
    65 <= b <= 90 || 97 <= b <= 122 || 48 <= b <= 57
}

/// The first and last character of one of the three ranges that identifiers are made of:
/// capital letters, small letters, digits.
pub fn id_range(kind: u8) -> (bounds: (u8, u8))
    requires
        kind <= 2,
    ensures
        kind == 0 ==> bounds == (65u8, 90u8),
        kind == 1 ==> bounds == (97u8, 122u8),
        kind == 2 ==> bounds == (48u8, 57u8),
{
    if kind == 0 {
        (65, 90)
    } else if kind == 1 {
        (97, 122)
    } else {
        (48, 57)
    }
}

/// A random identifier for this client, made of letters and digits.
pub fn random_id() -> (id: [u8; 20])
    ensures
        forall|i: int| 0 <= i < 20 ==> is_alphanumeric(#[trigger] id@[i]),
{
    let mut bytes: [u8; 20] = [0u8; 20];
    let mut i: usize = 0;
    while i < 20
        invariant
            i <= 20,
            forall|j: int| 0 <= j < i ==> is_alphanumeric(#[trigger] bytes@[j]),
        decreases 20 - i,
    {
        let kind: u8 = random_between(0, 2);
        let bounds: (u8, u8) = id_range(kind);
        bytes[i] = random_between(bounds.0, bounds.1);
        i = i + 1;
    }
    bytes
}

/// The capital hexadecimal digit for `nibble`.
pub open spec fn hex_digit(nibble: int) -> char {
    if nibble < 10 {
        (nibble + 48) as char
    } else {
        (nibble - 10 + 65) as char
    }
}

/// Two hexadecimal digits for each byte, in capitals.
pub open spec fn hexadecimal(bytes: Seq<u8>) -> Seq<char> {
    Seq::new(
        bytes.len() * 2,
        |i: int|
            if i % 2 == 0 {
                hex_digit(bytes[i / 2] as int / 16)
            } else {
                hex_digit(bytes[i / 2] as int % 16)
            },
    )
}

/// Whether a byte stands for itself in a URL.
pub open spec fn is_unreserved(b: u8) -> bool {
    is_alphanumeric(b) || b == 45 || b == 46 || b == 95 || b == 126
}

/// A byte in a URL: itself where that is safe, else a percent sign and two hexadecimal digits.
pub open spec fn percent_encoded_byte(b: u8) -> Seq<char> {
    if is_unreserved(b) {
        seq![b as char]
    } else {
        seq!['%', hex_digit(b as int / 16), hex_digit(b as int % 16)]
    }
}

/// `bytes` in a URL, byte by byte.
pub open spec fn percent_encoded(bytes: Seq<u8>) -> Seq<char>
    decreases bytes.len(),
{
    if bytes.len() == 0 {
        Seq::empty()
    } else {
        percent_encoded_byte(bytes[0]) + percent_encoded(bytes.drop_first())
    }
}

/// Whether `c` is a percent sign or an ASCII character that stands for itself in a URL.
pub open spec fn is_url_character(c: char) -> bool {
    c == '%' || ((c as int) < 128 && is_unreserved(c as u8))
}

/// `urlencoding::encode_binary`: every byte but letters, digits and `-`, `.`, `_`, `~` becomes a
/// percent sign and two capital hexadecimal digits.
#[verifier::external_body]
pub fn encode_bytes(bytes: &[u8]) -> (text: String)
    ensures
        text@ == percent_encoded(bytes@),
{
    urlencoding::encode_binary(bytes).to_string()
}

/// `String::push`: the character is appended.
pub assume_specification[ String::push ](s: &mut String, c: char)
    ensures
        final(s)@ == old(s)@.push(c),
;

/// `bytes` in hexadecimal, in capitals.
pub fn bytes_to_hexadecimal(bytes: &[u8]) -> (text: String)
    ensures
        text@ == hexadecimal(bytes@),
{
    let n: usize = bytes.len();
    let mut text: String = String::new();
    let mut i: usize = 0;
    while i < n
        invariant
            i <= n == bytes@.len(),
            text@ == hexadecimal(bytes@.take(i as int)),
        decreases n - i,
    {
        let b: u8 = bytes[i];
        let ghost before = text@;
        let ghost shorter = bytes@.take(i as int);
        let ghost longer = bytes@.take(i + 1);
        assert(b >> 4 == b / 16 && b & 0b1111 == b % 16 && b >> 4 <= 15 && b & 0b1111 <= 15)
            by (bit_vector);
        text.push(nibble_to_hexadeximal(b >> 4));
        text.push(nibble_to_hexadeximal(b & 0b1111));
        i = i + 1;
        assert(text@ =~= hexadecimal(longer)) by {
            assert(before == hexadecimal(shorter));
            assert forall|j: int| 0 <= j < i * 2 implies text@[j] == hexadecimal(longer)[j] by {
                if j < (i - 1) * 2 {
                    assert(shorter[j / 2] == longer[j / 2]);
                    assert(text@[j] == before[j]);
                }
            }
        }
    }
    assert(bytes@.take(n as int) =~= bytes@);
    text
}

/// The capital hexadecimal digit for four bits.
pub fn nibble_to_hexadeximal(nibble: u8) -> (digit: char)
    requires
        nibble <= 15,
    ensures
        digit == hex_digit(nibble as int),
{
    if nibble <= 9 {
        (nibble + 48) as char
    } else {
        (nibble - 10 + 65) as char
    }
}

/// Different bytes have different hexadecimal forms.
pub proof fn law_hexadecimal_is_injective(a: Seq<u8>, b: Seq<u8>)
    requires
        hexadecimal(a) == hexadecimal(b),
    ensures
        a == b,
{
    assert(hexadecimal(a).len() == a.len() * 2);
    assert(hexadecimal(b).len() == b.len() * 2);
    assert forall|i: int| 0 <= i < a.len() implies a[i] == b[i] by {
        assert(hexadecimal(a)[2 * i] == hexadecimal(b)[2 * i]);
        assert(hexadecimal(a)[2 * i + 1] == hexadecimal(b)[2 * i + 1]);
        assert((2 * i) / 2 == i && (2 * i) % 2 == 0);
        assert((2 * i + 1) / 2 == i && (2 * i + 1) % 2 == 1);
        assert(hexadecimal(a)[2 * i] == hex_digit(a[i] as int / 16));
        assert(hexadecimal(b)[2 * i] == hex_digit(b[i] as int / 16));
        assert(hexadecimal(a)[2 * i + 1] == hex_digit(a[i] as int % 16));
        assert(hexadecimal(b)[2 * i + 1] == hex_digit(b[i] as int % 16));
    }
    assert(a =~= b);
}

/// Different bytes have different forms in a URL.
pub proof fn law_percent_encoding_is_injective(a: Seq<u8>, b: Seq<u8>)
    requires
        percent_encoded(a) == percent_encoded(b),
    ensures
        a == b,
    decreases a.len(),
{
    if a.len() == 0 {
        if b.len() > 0 {
            assert(percent_encoded(b).len() > 0);
        }
        assert(a =~= b);
    } else if b.len() == 0 {
        assert(percent_encoded(a).len() > 0);
    } else {
        let first_a = percent_encoded_byte(a[0]);
        let first_b = percent_encoded_byte(b[0]);
        let text = percent_encoded(a);
        assert(text[0] == first_a[0] && text[0] == first_b[0]);
        assert(is_unreserved(a[0]) == is_unreserved(b[0]));
        assert(first_a.len() == first_b.len());
        if !is_unreserved(a[0]) {
            assert(text[1] == first_a[1] && text[1] == first_b[1]);
            assert(text[2] == first_a[2] && text[2] == first_b[2]);
        }
        assert(a[0] == b[0]);
        assert(percent_encoded(a.drop_first()) =~= text.skip(first_a.len() as int));
        assert(percent_encoded(b.drop_first()) =~= text.skip(first_b.len() as int));
        law_percent_encoding_is_injective(a.drop_first(), b.drop_first());
        assert(a =~= seq![a[0]] + a.drop_first());
        assert(b =~= seq![b[0]] + b.drop_first());
    }
}

/// Nothing but percent signs and characters that stand for themselves goes into a URL.
pub proof fn law_percent_encoding_is_safe(bytes: Seq<u8>)
    ensures
        forall|i: int|
            0 <= i < percent_encoded(bytes).len() ==> is_url_character(
                #[trigger] percent_encoded(bytes)[i],
            ),
    decreases bytes.len(),
{
    if bytes.len() > 0 {
        let first = percent_encoded_byte(bytes[0]);
        let rest = percent_encoded(bytes.drop_first());
        law_percent_encoding_is_safe(bytes.drop_first());
        assert forall|i: int| 0 <= i < percent_encoded(bytes).len() implies is_url_character(
            #[trigger] percent_encoded(bytes)[i],
        ) by {
            if i >= first.len() {
                assert(percent_encoded(bytes)[i] == rest[i - first.len()]);
            } else {
                assert(percent_encoded(bytes)[i] == first[i]);
            }
        }
    }
}

} // verus!
