use vstd::prelude::*;
use crate::strings::{has_prefix, strip_or_keep, strip_prefix};

verus! {

/// One layer image of a bundle: its content digest (`blake3:<hex>`), its size in
/// bytes and the role it plays (`app`, `runtime`, ...).
#[derive(Debug, Clone)]
pub struct LayerRef {
    pub digest: String,
    pub size: u64,
    pub role: String,
}

/// What a layer reference says, as plain values.
pub struct LayerRefView {
    pub digest: Seq<char>,
    pub size: u64,
    pub role: Seq<char>,
}

impl View for LayerRef {
    type V = LayerRefView;

    open spec fn view(&self) -> LayerRefView {
        LayerRefView { digest: self.digest@, size: self.size, role: self.role@ }
    }
}

/// The prefix that names the digest algorithm.
pub open spec fn blake3_prefix() -> Seq<char> {
    seq!['b', 'l', 'a', 'k', 'e', '3', ':']
}

/// The hex part of a digest string: the text after `blake3:`, or the whole
/// string when that prefix is missing.
pub open spec fn digest_hex_of(digest: Seq<char>) -> Seq<char> {
    strip_or_keep(digest, blake3_prefix())
}

/// Value of a hex digit, when `c` is one (either case).
pub open spec fn hex_digit_value(c: char) -> Option<u8> {
    if '0' <= c && c <= '9' {
        Some((c as u32 - '0' as u32) as u8)
    } else if 'a' <= c && c <= 'f' {
        Some((c as u32 - 'a' as u32 + 10) as u8)
    } else if 'A' <= c && c <= 'F' {
        Some((c as u32 - 'A' as u32 + 10) as u8)
    } else {
        None
    }
}

/// Hex text that decodes to exactly 32 bytes: 64 hex digits.
pub open spec fn is_digest_hex(h: Seq<char>) -> bool {
    h.len() == 64 && forall|i: int| 0 <= i < 64 ==> (#[trigger] hex_digit_value(h[i])) is Some
}

/// The byte that the hex digits at `2 * i` and `2 * i + 1` stand for.
pub open spec fn hex_byte(h: Seq<char>, i: int) -> u8 {
    (hex_digit_value(h[2 * i]).unwrap() * 16 + hex_digit_value(h[2 * i + 1]).unwrap()) as u8
}

/// Decodes hex text into exactly 32 bytes (`hex::decode_to_slice`). It fails,
/// with the crate's error text, when the text is not 64 hex digits.
#[verifier::external_body]
fn hex_decode_32(h: &str) -> (r: core::result::Result<[u8; 32], String>)
    ensures
        r is Ok <==> is_digest_hex(h@),
        r matches Ok(out) ==> forall|i: int| 0 <= i < 32 ==> #[trigger] out@[i] == hex_byte(h@, i),
{
    let mut out = [0u8; 32];
    match hex::decode_to_slice(h, &mut out) {
        Ok(()) => Ok(out),
        Err(e) => Err(e.to_string()),
    }
}

impl LayerRef {
    /// The hex part of the digest (`blake3:` stripped when present).
    pub fn digest_hex(&self) -> (r: &str)
        ensures
            r@ == digest_hex_of(self.digest@),
    {
        let s = self.digest.as_str();
        let p = "blake3:";
        proof {
            reveal_strlit("blake3:");
            assert(p@ == blake3_prefix());
        }
        match strip_prefix(s, p) {
            Some(t) => t,
            None => s,
        }
    }

    /// The 32 digest bytes. Fails when the `blake3:` prefix is missing or the
    /// rest is not 64 hex digits.
    pub fn digest_bytes(&self) -> (r: core::result::Result<[u8; 32], String>)
        ensures
            r is Ok <==> has_prefix(self.digest@, blake3_prefix())
                && is_digest_hex(self.digest@.skip(7)),
            r matches Ok(out) ==> forall|i: int|
                0 <= i < 32 ==> #[trigger] out@[i] == hex_byte(self.digest@.skip(7), i),
            r matches Err(m) ==> !has_prefix(self.digest@, blake3_prefix()) ==> m@
                == missing_prefix_message(self.digest@),
    {
        let s = self.digest.as_str();
        let p = "blake3:";
        proof {
            reveal_strlit("blake3:");
            assert(p@ == blake3_prefix());
        }
        match strip_prefix(s, p) {
            Some(h) => {
                match hex_decode_32(h) {
                    Ok(out) => Ok(out),
                    Err(e) => {
                        let mut m = String::from_str("hex decode: ");
                        m.append(e.as_str());
                        Err(m)
                    },
                }
            },
            None => {
                let mut m = String::from_str("digest missing blake3: prefix: ");
                m.append(s);
                Err(m)
            },
        }
    }
}

/// The error text for a digest without the `blake3:` prefix.
pub open spec fn missing_prefix_message(digest: Seq<char>) -> Seq<char> {
    "digest missing blake3: prefix: "@ + digest
}

} // verus!

verus! {

impl LayerRef {
    /// A copy of this reference.
    pub fn copied(&self) -> (r: LayerRef)
        ensures
            r@ == self@,
    {
        LayerRef { digest: self.digest.clone(), size: self.size, role: self.role.clone() }
    }
}

} // verus!
