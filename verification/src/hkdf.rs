//! HKDF with SHA-256, and the labelled expansion of TLS 1.3 that QUIC uses.

use vstd::prelude::*;
use vstd::string::StringSliceAdditionalSpecFns;
use crate::wire;

verus! {

/// The salt of the Initial secrets of QUIC version 1.
pub const INITIAL_SALT: [u8; 20] = [
    0x38,
    0x76,
    0x2c,
    0xf7,
    0xf5,
    0x59,
    0x34,
    0xb3,
    0x4d,
    0x17,
    0x9a,
    0xe6,
    0xa4,
    0xc8,
    0x0c,
    0xad,
    0xcc,
    0xbb,
    0x7f,
    0x0a,
];

/// The most bytes that one expansion can give.
pub const EXPAND_MAX: usize = 8160;

/// The pseudorandom key that HKDF-Extract with SHA-256 makes of a salt and input keying material.
pub uninterp spec fn hkdf_extracted(salt: Seq<u8>, ikm: Seq<u8>) -> Seq<u8>;

/// The `len` bytes that HKDF-Expand with SHA-256 makes of a pseudorandom key and an info string.
pub uninterp spec fn hkdf_expanded(prk: Seq<u8>, info: Seq<u8>, len: nat) -> Seq<u8>;

/// The info string of a labelled expansion: the length of the output as two bytes, then the label
/// behind `tls13 `, then the context, each behind its own length as one byte.
pub open spec fn label_info(label: Seq<u8>, context: Seq<u8>, len: nat) -> Seq<u8> {
    let full = "tls13 ".spec_bytes() + label;
    wire::be_bytes(len, 2) + wire::be_bytes(full.len(), 1) + full + wire::be_bytes(
        context.len(),
        1,
    ) + context
}

/// What a labelled expansion gives.
pub open spec fn label_expanded(
    secret: Seq<u8>,
    label: Seq<u8>,
    context: Seq<u8>,
    len: nat,
) -> Seq<u8> {
    hkdf_expanded(secret, label_info(label, context, len), len)
}

/// Law: an info string has the layout of TLS 1.3: two bytes of output length, one byte of label
/// length, the label behind `tls13 `, one byte of context length, and the context. A labelled
/// expansion expands the secret under that string.
pub proof fn label_info_has_the_layout_of_tls(
    secret: Seq<u8>,
    label: Seq<u8>,
    context: Seq<u8>,
    len: nat,
)
    ensures
        label_expanded(secret, label, context, len) == hkdf_expanded(
            secret,
            label_info(label, context, len),
            len,
        ),
        label_info(label, context, len) == seq![
            (len / 256 % 256) as u8,
            (len % 256) as u8,
            ((6 + label.len()) % 256) as u8,
            0x74,
            0x6c,
            0x73,
            0x31,
            0x33,
            0x20,
        ] + label + seq![(context.len() % 256) as u8] + context,
{
    reveal_strlit("tls13 ");
    vstd::utf8::is_ascii_chars_encode_utf8("tls13 "@);
    assert("tls13 ".spec_bytes() =~= seq![0x74u8, 0x6c, 0x73, 0x31, 0x33, 0x20]);
    wire::lemma_short_integers(len);
    wire::lemma_short_integers(6 + label.len());
    wire::lemma_short_integers(context.len());
    assert(label_info(label, context, len) =~= seq![
        (len / 256 % 256) as u8,
        (len % 256) as u8,
        ((6 + label.len()) % 256) as u8,
        0x74,
        0x6c,
        0x73,
        0x31,
        0x33,
        0x20,
    ] + label + seq![(context.len() % 256) as u8] + context);
}

/// `Hkdf::<Sha256>::extract` of `hkdf`: a pseudorandom key of 32 bytes, which depends on the salt
/// and the input keying material alone.
#[verifier::external_body]
pub(crate) fn hkdf_extract(salt: &[u8], ikm: &[u8]) -> (prk: Vec<u8>)
    ensures
        prk@ == hkdf_extracted(salt@, ikm@),
        prk@.len() == 32,
{
    ::hkdf::Hkdf::<sha2::Sha256>::extract(Some(salt), ikm).0.to_vec()
}

/// `Hkdf::<Sha256>::from_prk` and `Hkdf::expand` of `hkdf`: `len` bytes, which depend on the
/// pseudorandom key, the info string and the length alone.
#[verifier::external_body]
pub(crate) fn hkdf_expand(prk: &[u8], info: &[u8], len: usize) -> (okm: Vec<u8>)
    requires
        prk@.len() >= 32,
        len <= EXPAND_MAX,
    ensures
        okm@ == hkdf_expanded(prk@, info@, len as nat),
        okm@.len() == len,
{
    let mut okm = vec![0u8; len];
    let hkdf = ::hkdf::Hkdf::<sha2::Sha256>::from_prk(prk).expect("secret is a valid PRK");
    hkdf.expand(info, &mut okm).expect("len is within the limit of HKDF");
    okm
}

/// The info string of a labelled expansion. Lengths that their bytes cannot hold are cut to the
/// low bytes.
pub fn hkdf_label_info(label: &str, context: &[u8], len: usize) -> (info: Vec<u8>)
    ensures
        info@ == label_info(label.spec_bytes(), context@, len as nat),
{
    let mut full_label: Vec<u8> = Vec::new();
    full_label.extend_from_slice("tls13 ".as_bytes());
    full_label.extend_from_slice(label.as_bytes());
    proof {
        assert(full_label@ =~= "tls13 ".spec_bytes() + label.spec_bytes());
    }
    let mut info: Vec<u8> = Vec::new();
    wire::put_be(&mut info, len as u64, 2);
    wire::put_be(&mut info, full_label.len() as u64, 1);
    info.extend_from_slice(full_label.as_slice());
    wire::put_be(&mut info, context.len() as u64, 1);
    info.extend_from_slice(context);
    assert(info@ =~= label_info(label.spec_bytes(), context@, len as nat));
    info
}

/// The labelled expansion of a secret.
pub fn hkdf_expand_label(secret: &[u8], label: &str, context: &[u8], len: usize) -> (okm: Vec<u8>)
    requires
        secret@.len() >= 32,
        len <= EXPAND_MAX,
    ensures
        okm@ == label_expanded(secret@, label.spec_bytes(), context@, len as nat),
        okm@.len() == len,
{
    let info = hkdf_label_info(label, context, len);
    hkdf_expand(secret, info.as_slice(), len)
}

} // verus!
