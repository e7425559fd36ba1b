use vstd::prelude::*;

verus! {

/// The ASCII byte for a single hex digit: `0`..`9` for values below ten,
/// lowercase `a`..`f` for the rest.
pub open spec fn hex_digit(n: u8) -> u8
    recommends
        n < 16,
{
    if n < 10 {
        (0x30 + n) as u8
    } else {
        (0x61 + (n - 10)) as u8
    }
}

/// The lowercase hex encoding of a byte string: each byte becomes two hex
/// digits, high nibble first.
pub open spec fn hex_bytes_of(data: Seq<u8>) -> Seq<u8> {
    Seq::new(
        data.len() * 2,
        |i: int|
            if i % 2 == 0 {
                hex_digit(data[i / 2] >> 4)
            } else {
                hex_digit(data[i / 2] & 0xf)
            },
    )
}

/// The SHA-256 digest of a byte string: a function of the input bytes alone.
pub uninterp spec fn sha256_of(data: Seq<u8>) -> Seq<u8>;

/// Relies on sha2's `Sha256` (through the `Digest` trait): the digest is a
/// function of the input bytes alone and is 32 bytes long.
#[verifier::external_body]
fn sha256_bytes(data: &[u8]) -> (r: Vec<u8>)
    ensures
        r@ == sha256_of(data@),
        r@.len() == 32,
{
    <sha2::Sha256 as sha2::Digest>::digest(data).to_vec()
}

/// Relies on hex::encode: each input byte becomes two lowercase hex digits,
/// high nibble first.
#[verifier::external_body]
fn hex_encode(data: &[u8]) -> (r: Vec<u8>)
    ensures
        r@ == hex_bytes_of(data@),
{
    hex::encode(data).into_bytes()
}

/// The lowercase hex encoding of the SHA-256 digest of `data`: 64 hex
/// characters, as bytes.
pub fn hex_sha256(data: &[u8]) -> (r: Vec<u8>)
    ensures
        r@ == hex_bytes_of(sha256_of(data@)),
        r@.len() == 64,
{
    let digest = sha256_bytes(data);
    hex_encode(digest.as_slice())
}

/// Hex encoding is injective: equal encodings come from equal byte strings.
/// In particular, two files whose full content-mode shard keys agree have
/// the same SHA-256 digest.
pub proof fn lemma_hex_bytes_injective(a: Seq<u8>, b: Seq<u8>)
    requires
        hex_bytes_of(a) == hex_bytes_of(b),
    ensures
        a == b,
{
    assert(hex_bytes_of(a).len() == a.len() * 2);
    assert(hex_bytes_of(b).len() == b.len() * 2);
    assert(a.len() == b.len());
    assert forall|i: int| 0 <= i < a.len() implies a[i] == b[i] by {
        let ax: u8 = a[i];
        let bx: u8 = b[i];
        assert(ax >> 4 < 16 && ax & 0xf < 16 && bx >> 4 < 16 && bx & 0xf < 16)
            by (bit_vector);
        assert((2 * i) / 2 == i && (2 * i + 1) / 2 == i);
        assert(hex_bytes_of(a)[2 * i] == hex_digit(ax >> 4));
        assert(hex_bytes_of(b)[2 * i] == hex_digit(bx >> 4));
        assert(hex_bytes_of(a)[2 * i + 1] == hex_digit(ax & 0xf));
        assert(hex_bytes_of(b)[2 * i + 1] == hex_digit(bx & 0xf));
        assert(hex_digit(ax >> 4) == hex_digit(bx >> 4));
        assert(hex_digit(ax & 0xf) == hex_digit(bx & 0xf));
        lemma_hex_digit_injective(ax >> 4, bx >> 4);
        lemma_hex_digit_injective(ax & 0xf, bx & 0xf);
        assert(ax >> 4 == bx >> 4 && ax & 0xf == bx & 0xf ==> ax == bx) by (bit_vector);
    }
    assert(a =~= b);
}

/// A hex digit determines its nibble.
proof fn lemma_hex_digit_injective(x: u8, y: u8)
    requires
        x < 16,
        y < 16,
        hex_digit(x) == hex_digit(y),
    ensures
        x == y,
{
}

} // verus!
