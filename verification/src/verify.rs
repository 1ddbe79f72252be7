use vstd::prelude::*;
use crate::bundle::{Bundle, layer_bytes, layout_fits, layer_start, lemma_sizes_monotone};
use crate::error::{Error, Result};
use crate::layer::digest_hex_of;
use crate::strings::str_eq;

verus! {

/// The BLAKE3 digest of some bytes.
pub uninterp spec fn blake3_of(data: Seq<u8>) -> Seq<u8>;

/// The lowercase hex digit for `d < 16`.
pub open spec fn hex_char(d: int) -> char {
    if d < 10 {
        ((48 + d) as u8) as char
    } else {
        ((87 + d) as u8) as char
    }
}

/// Lowercase hex: two digits per byte, high nibble first.
pub open spec fn lower_hex(b: Seq<u8>) -> Seq<char>
    decreases b.len(),
{
    if b.len() == 0 {
        Seq::empty()
    } else {
        seq![hex_char(b[0] as int / 16), hex_char(b[0] as int % 16)] + lower_hex(b.drop_first())
    }
}

/// `blake3::hash`: the 32-byte BLAKE3 digest. Claimed: the bytes are the named
/// digest of the input.
#[verifier::external_body]
fn blake3_hash(data: &[u8]) -> (r: [u8; 32])
    ensures
        r@ == blake3_of(data@),
{
    *blake3::hash(data).as_bytes()
}

/// `blake3::Hash::to_hex`: the digest in lowercase hex. Claimed: two digits per
/// byte, high nibble first, as the crate's source writes them.
#[verifier::external_body]
fn digest_to_hex(digest: [u8; 32]) -> (r: String)
    ensures
        r@ == lower_hex(digest@),
{
    blake3::Hash::from_bytes(digest).to_hex().to_string()
}

/// The lowercase hex BLAKE3 digest of some bytes.
pub open spec fn blake3_hex_of(data: Seq<u8>) -> Seq<char> {
    lower_hex(blake3_of(data))
}

/// The layers all lie within the bundle and each one hashes to the digest
/// its header names.
pub open spec fn layers_verified(b: Bundle) -> bool {
    forall|i: int|
        0 <= i < b.header@.layers.len() ==> (#[trigger] layer_bytes(b.header@, b.data@, i)) is Some
            && blake3_hex_of(layer_bytes(b.header@, b.data@, i).unwrap()) == digest_hex_of(
            b.header@.layers[i].digest,
        )
}

/// Layer `j` lies within the bundle and hashes to its digest.
pub open spec fn layer_ok(b: Bundle, j: int) -> bool {
    layer_bytes(b.header@, b.data@, j) is Some && blake3_hex_of(layer_bytes(b.header@, b.data@, j).unwrap())
        == digest_hex_of(b.header@.layers[j].digest)
}

/// The first layer from `i` on that is cut short or does not match.
pub open spec fn first_failing_layer(b: Bundle, i: int) -> Option<int>
    decreases b.header@.layers.len() - i,
{
    if i < 0 || i >= b.header@.layers.len() {
        None
    } else if !layer_ok(b, i) {
        Some(i)
    } else {
        first_failing_layer(b, i + 1)
    }
}

/// Digest checks for bundles and layers.
pub struct Verifier;

impl Verifier {
    /// The BLAKE3 digest of some bytes.
    pub fn blake3_digest(data: &[u8]) -> (r: [u8; 32])
        ensures
            r@ == blake3_of(data@),
    {
        blake3_hash(data)
    }

    /// The BLAKE3 digest of some bytes, in lowercase hex.
    pub fn blake3_hex(data: &[u8]) -> (r: String)
        ensures
            r@ == blake3_hex_of(data@),
    {
        digest_to_hex(Self::blake3_digest(data))
    }

    /// Checks that some bytes hash to `expected_hex`; otherwise a
    /// `DigestMismatch` naming both digests.
    pub fn verify_digest(data: &[u8], expected_hex: &str) -> (r: Result<()>)
        ensures
            r is Ok <==> blake3_hex_of(data@) == expected_hex@,
            r matches Err(e) ==> (e matches Error::DigestMismatch { expected, actual }
                && expected@ == expected_hex@ && actual@ == blake3_hex_of(data@)),
    {
        let actual = Self::blake3_hex(data);
        if !str_eq(actual.as_str(), expected_hex) {
            return Err(Error::DigestMismatch { expected: String::from_str(expected_hex), actual });
        }
        Ok(())
    }

    /// Checks every layer of a bundle against the digest in its header, in
    /// order; the first layer that is cut short or does not match decides the
    /// error.
    pub fn verify_layers(bundle: &Bundle) -> (r: Result<()>)
        requires
            layout_fits(bundle.header@),
        ensures
            r is Ok <==> layers_verified(*bundle),
            r is Ok <==> first_failing_layer(*bundle, 0) is None,
            first_failing_layer(*bundle, 0) matches Some(k) ==> (if layer_bytes(
                bundle.header@,
                bundle.data@,
                k,
            ) is None {
                r matches Err(Error::InvalidFormat(m)) && m@ == crate::bundle::layer_bounds_message(
                    k,
                    layer_start(bundle.header@, k),
                    bundle.header@.layers[k].size as int,
                )
            } else {
                r matches Err(Error::DigestMismatch { expected, actual }) && expected@ == digest_hex_of(
                    bundle.header@.layers[k].digest,
                ) && actual@ == blake3_hex_of(layer_bytes(bundle.header@, bundle.data@, k).unwrap())
            }),
    {
        let ghost h = bundle.header@;
        let n = bundle.header.layers.len();
        let mut i: usize = 0;
        while i < n
            invariant
                h == bundle.header@,
                layout_fits(h),
                n == h.layers.len(),
                i <= n,
                forall|j: int|
                    0 <= j < i ==> (#[trigger] layer_bytes(h, bundle.data@, j)) is Some
                        && blake3_hex_of(layer_bytes(h, bundle.data@, j).unwrap()) == digest_hex_of(
                        h.layers[j].digest,
                    ),
                first_failing_layer(*bundle, 0) == first_failing_layer(*bundle, i as int),
            decreases n - i,
        {
            proof {
                lemma_sizes_monotone(h.layers, i + 1, h.layers.len() as int);
            }
            let data = match bundle.extract_layer(i) {
                Ok(d) => d,
                Err(e) => {
                    assert(layer_bytes(h, bundle.data@, i as int) is None);
                    return Err(e);
                },
            };
            let expected = bundle.header.layers[i].digest_hex();
            let actual = Self::blake3_hex(data);
            if !str_eq(actual.as_str(), expected) {
                return Err(
                    Error::DigestMismatch {
                        expected: String::from_str(expected),
                        actual,
                    },
                );
            }
            i = i + 1;
        }
        Ok(())
    }

    /// Checks the bundle's signature online.
    pub fn verify_signature(bundle: &Bundle) -> (r: Result<()>)
        ensures
            bundle.header.signature is None ==> (r matches Err(Error::SignatureVerification(m))
                && m@ == "no signature in bundle"@),
            r is Ok ==> bundle.header.signature is Some && crate::signing::artifact_of(
                bundle.header@,
            ) is Some,
            r is Ok ==> crate::sigstore::sigstore_structure_valid(bundle.header.signature->0@),
            r is Ok ==> crate::sigstore::sigstore_accepts(
                crate::signing::artifact_of(bundle.header@)->0,
                bundle.header.signature->0@,
                crate::sigstore::signer_policy_of(None, false),
            ),
            r matches Err(e) ==> e is SignatureVerification || (e is InvalidFormat
                && crate::signing::artifact_of(bundle.header@) is None),
    {
        crate::signing::verify_signature(bundle)
    }

    /// Checks the bundle's signature; offline it skips the transparency log.
    pub fn verify_signature_opt(bundle: &Bundle, offline: bool) -> (r: Result<()>)
        ensures
            bundle.header.signature is None ==> (r matches Err(Error::SignatureVerification(m))
                && m@ == "no signature in bundle"@),
            r is Ok ==> bundle.header.signature is Some && crate::signing::artifact_of(
                bundle.header@,
            ) is Some,
            r is Ok ==> crate::sigstore::sigstore_structure_valid(bundle.header.signature->0@),
            r is Ok ==> crate::sigstore::sigstore_accepts(
                crate::signing::artifact_of(bundle.header@)->0,
                bundle.header.signature->0@,
                crate::sigstore::signer_policy_of(None, offline),
            ),
            r matches Err(e) ==> e is SignatureVerification || (e is InvalidFormat
                && crate::signing::artifact_of(bundle.header@) is None),
    {
        crate::signing::verify_signature_opt(bundle, offline)
    }

    /// The bundle's SBOM, when it carries one, is a gzip-compressed CycloneDX
    /// document.
    pub fn verify_sbom(bundle: &Bundle) -> (r: Result<()>)
        ensures
            bundle.header.sbom is None ==> r is Ok,
            bundle.header.sbom matches Some(s) ==> crate::sbom::sbom_check_outcome(s@, r),
    {
        match &bundle.header.sbom {
            Some(s) => crate::sbom::verify_sbom_data(s.as_slice()),
            None => Ok(()),
        }
    }
}

impl Bundle {
    /// The BLAKE3 digest of the stub: every byte before the header.
    pub fn stub_digest(&self) -> (r: [u8; 32])
        requires
            self.header.offset <= self.data@.len(),
        ensures
            r@ == blake3_of(self.data@.subrange(0, self.header.offset as int)),
    {
        let len = self.data.len();
        assert(self.header.offset <= len);
        let end = self.header.offset as usize;
        blake3_hash(vstd::slice::slice_subrange(self.data.as_slice(), 0, end))
    }
}

} // verus!
