//! Tagged content digests used as stable certificate identities.

use vstd::prelude::*;

verus! {

use crate::text::{utf8_to_string, lemma_ascii_bytes_decode};

/// A tagged digest: the algorithm tag together with the raw digest bytes.
/// It is a pure identity/formatting value with no behaviour of its own.
pub enum Fingerprint {
    SHA256(Vec<u8>),
}

/// The SHA-256 digest of a byte sequence. The digest is a function of the
/// input bytes alone; its value is not modelled here.
pub uninterp spec fn sha256_of(data: Seq<u8>) -> Seq<u8>;

/// Relies on `sha2::Sha256::digest`: the digest depends on the input bytes
/// alone and is always 32 bytes long.
#[verifier::external_body]
fn sha256_digest(data: &[u8]) -> (r: Vec<u8>)
    ensures
        r@ == sha256_of(data@),
        r@.len() == 32,
{
    <sha2::Sha256 as sha2::Digest>::digest(data).to_vec()
}

/// The uppercase hexadecimal digit for a value below 16, as a byte.
pub open spec fn hex_digit(d: u8) -> u8
    recommends
        d < 16,
{
    if d < 10 {
        (d + 48) as u8
    } else {
        (d + 55) as u8
    }
}

/// Each byte rendered as a colon followed by its two uppercase hexadecimal
/// digits.
pub open spec fn colon_hex_bytes(bytes: Seq<u8>) -> Seq<u8>
    decreases bytes.len(),
{
    if bytes.len() == 0 {
        Seq::empty()
    } else {
        seq![58u8, hex_digit(bytes[0] / 16), hex_digit(bytes[0] % 16)] + colon_hex_bytes(
            bytes.drop_first(),
        )
    }
}

/// The display form of a fingerprint, at the byte level: the algorithm tag
/// (here always `SHA-256`), then each digest byte as two uppercase
/// hexadecimal digits, colon-separated.
pub open spec fn display_bytes_of(f: Fingerprint) -> Seq<u8> {
    match f {
        Fingerprint::SHA256(bytes) => seq![83u8, 72u8, 65u8, 45u8, 50u8, 53u8, 54u8]
            + colon_hex_bytes(bytes@),
    }
}

/// The display form of a fingerprint, as the characters of the rendered
/// string.
pub open spec fn display_chars_of(f: Fingerprint) -> Seq<char> {
    display_bytes_of(f).map_values(|b: u8| b as char)
}

proof fn lemma_colon_hex_bytes_ascii(bytes: Seq<u8>)
    ensures
        forall|i: int| 0 <= i < colon_hex_bytes(bytes).len() ==> colon_hex_bytes(bytes)[i] < 128,
    decreases bytes.len(),
{
    if bytes.len() > 0 {
        lemma_colon_hex_bytes_ascii(bytes.drop_first());
        let rest = colon_hex_bytes(bytes.drop_first());
        assert forall|i: int| 0 <= i < colon_hex_bytes(bytes).len() implies colon_hex_bytes(
            bytes,
        )[i] < 128 by {
            if i >= 3 {
                assert(colon_hex_bytes(bytes)[i] == rest[i - 3]);
            }
        }
    }
}

impl Fingerprint {
    /// Digests the given bytes with the single supported algorithm.
    pub fn new(data: &[u8]) -> (r: Self)
        ensures
            r matches Fingerprint::SHA256(digest) && digest@ == sha256_of(data@) && digest@.len()
                == 32,
    {
        Fingerprint::SHA256(sha256_digest(data))
    }

    /// Renders the fingerprint as its algorithm tag followed by each digest
    /// byte as two uppercase hexadecimal digits, colon-separated.
    pub fn display_string(&self) -> (r: String)
        ensures
            r@ == display_chars_of(*self),
    {
        let Fingerprint::SHA256(bytes) = self;
        let mut out: Vec<u8> = Vec::new();
        out.push(83);
        out.push(72);
        out.push(65);
        out.push(45);
        out.push(50);
        out.push(53);
        out.push(54);
        proof {
            assert(bytes@.take(0) =~= Seq::<u8>::empty());
            assert(colon_hex_bytes(Seq::<u8>::empty()) =~= Seq::<u8>::empty());
            assert(out@ =~= seq![83u8, 72u8, 65u8, 45u8, 50u8, 53u8, 54u8] + colon_hex_bytes(
                bytes@.take(0),
            ));
        }
        let mut i: usize = 0;
        while i < bytes.len()
            invariant
                0 <= i <= bytes@.len(),
                out@ == seq![83u8, 72u8, 65u8, 45u8, 50u8, 53u8, 54u8] + colon_hex_bytes(
                    bytes@.take(i as int),
                ),
            decreases bytes@.len() - i,
        {
            let b = bytes[i];
            out.push(58);
            out.push(hex_digit_exec(b / 16));
            out.push(hex_digit_exec(b % 16));
            proof {
                lemma_colon_hex_bytes_take_one_more(bytes@, i as int);
                assert(out@ =~= seq![83u8, 72u8, 65u8, 45u8, 50u8, 53u8, 54u8] + colon_hex_bytes(
                    bytes@.take(i + 1),
                ));
            }
            i = i + 1;
        }
        proof {
            assert(bytes@.take(bytes@.len() as int) =~= bytes@);
            assert(out@ == display_bytes_of(*self));
            lemma_display_bytes_ascii(*self);
            lemma_ascii_bytes_decode(out@);
        }
        match utf8_to_string(out) {
            Some(s) => s,
            None => unreached(),
        }
    }
}

fn hex_digit_exec(d: u8) -> (r: u8)
    requires
        d < 16,
    ensures
        r == hex_digit(d),
{
    if d < 10 {
        d + 48
    } else {
        d + 55
    }
}

proof fn lemma_colon_hex_bytes_take_one_more(bytes: Seq<u8>, i: int)
    requires
        0 <= i < bytes.len(),
    ensures
        colon_hex_bytes(bytes.take(i + 1)) == colon_hex_bytes(bytes.take(i)) + seq![
            58u8,
            hex_digit(bytes[i] / 16),
            hex_digit(bytes[i] % 16),
        ],
    decreases i,
{
    if i == 0 {
        assert(bytes.take(1).drop_first() =~= Seq::<u8>::empty());
        assert(bytes.take(1)[0] == bytes[0]);
        assert(bytes.take(0) =~= Seq::<u8>::empty());
        assert(colon_hex_bytes(Seq::<u8>::empty()) =~= Seq::<u8>::empty());
        assert(colon_hex_bytes(bytes.take(1)) =~= colon_hex_bytes(bytes.take(0)) + seq![
            58u8,
            hex_digit(bytes[0] / 16),
            hex_digit(bytes[0] % 16),
        ]);
    } else {
        lemma_colon_hex_bytes_take_one_more(bytes.drop_first(), i - 1);
        assert(bytes.take(i + 1).drop_first() =~= bytes.drop_first().take(i));
        assert(bytes.take(i).drop_first() =~= bytes.drop_first().take(i - 1));
        assert(bytes.take(i + 1)[0] == bytes[0]);
        assert(bytes.take(i)[0] == bytes[0]);
        assert(bytes.drop_first()[i - 1] == bytes[i]);
        assert(colon_hex_bytes(bytes.take(i + 1)) == seq![
            58u8,
            hex_digit(bytes[0] / 16),
            hex_digit(bytes[0] % 16),
        ] + colon_hex_bytes(bytes.drop_first().take(i)));
        assert(colon_hex_bytes(bytes.take(i + 1)) =~= colon_hex_bytes(bytes.take(i)) + seq![
            58u8,
            hex_digit(bytes[i] / 16),
            hex_digit(bytes[i] % 16),
        ]);
    }
}

proof fn lemma_display_bytes_ascii(f: Fingerprint)
    ensures
        forall|i: int| 0 <= i < display_bytes_of(f).len() ==> display_bytes_of(f)[i] < 128,
{
    match f {
        Fingerprint::SHA256(bytes) => {
            lemma_colon_hex_bytes_ascii(bytes@);
            assert forall|i: int| 0 <= i < display_bytes_of(f).len() implies display_bytes_of(
                f,
            )[i] < 128 by {
                if i >= 7 {
                    assert(display_bytes_of(f)[i] == colon_hex_bytes(bytes@)[i - 7]);
                }
            }
        },
    }
}

} // verus!
