//! Byte-to-text decoding, behind trusted wrappers.
//!
//! The decoders' full behaviour on malformed input is not restated here; each
//! result is given a name, plus the one fact every caller needs: all the
//! decoders used by this crate map pure-ASCII input to the identical
//! character sequence.
use vstd::prelude::*;

verus! {

/// Every byte is below 0x80.
pub open spec fn is_ascii_bytes(bytes: Seq<u8>) -> bool {
    forall|i: int| 0 <= i < bytes.len() ==> bytes[i] < 0x80
}

/// The characters an ASCII byte sequence stands for, one per byte.
pub open spec fn ascii_chars_of(bytes: Seq<u8>) -> Seq<char> {
    bytes.map_values(|b: u8| b as char)
}

pub uninterp spec fn utf8_lossy_of(bytes: Seq<u8>) -> Seq<char>;

/// Relies on `String::from_utf8_lossy`: UTF-8 decoding with U+FFFD for
/// malformed sequences. ASCII bytes are valid UTF-8 and decode to themselves.
#[verifier::external_body]
pub fn decode_utf8_lossy(bytes: &Vec<u8>) -> (r: String)
    ensures
        r@ == utf8_lossy_of(bytes@),
        is_ascii_bytes(bytes@) ==> r@ == ascii_chars_of(bytes@),
{
    String::from_utf8_lossy(bytes).into_owned()
}

pub uninterp spec fn encoding_utf8_of(bytes: Seq<u8>) -> Seq<char>;

/// Relies on `encoding_rs::UTF_8.decode`: WHATWG UTF-8 decode with BOM
/// sniffing and U+FFFD replacement. ASCII bytes hold no BOM and are valid
/// UTF-8, so they decode to themselves.
#[verifier::external_body]
pub fn decode_utf8_full(bytes: &Vec<u8>) -> (r: String)
    ensures
        r@ == encoding_utf8_of(bytes@),
        is_ascii_bytes(bytes@) ==> r@ == ascii_chars_of(bytes@),
{
    let (cow, _, _) = encoding_rs::UTF_8.decode(bytes);
    cow.into_owned()
}

pub uninterp spec fn shift_jis_of(bytes: Seq<u8>) -> Seq<char>;

/// Relies on `encoding_rs::SHIFT_JIS.decode`: WHATWG Shift_JIS decode with
/// BOM sniffing and U+FFFD replacement. The WHATWG Shift_JIS decoder is
/// ASCII-compatible: bytes below 0x80 decode to themselves, and ASCII input
/// holds no BOM.
#[verifier::external_body]
pub fn decode_shift_jis(bytes: &Vec<u8>) -> (r: String)
    ensures
        r@ == shift_jis_of(bytes@),
        is_ascii_bytes(bytes@) ==> r@ == ascii_chars_of(bytes@),
{
    let (cow, _, _) = encoding_rs::SHIFT_JIS.decode(bytes);
    cow.into_owned()
}

pub uninterp spec fn lower_of(s: Seq<char>) -> Seq<char>;

/// Relies on `str::to_lowercase`: Unicode lower-casing, a function of the
/// characters alone.
#[verifier::external_body]
pub fn to_lowercase(s: &str) -> (r: String)
    ensures
        r@ == lower_of(s@),
{
    s.to_lowercase()
}

/// Copies the range `[from, to)` out of a byte vector.
pub fn sub_bytes(v: &Vec<u8>, from: usize, to: usize) -> (r: Vec<u8>)
    requires
        from <= to <= v@.len(),
    ensures
        r@ == v@.subrange(from as int, to as int),
{
    let mut r: Vec<u8> = Vec::new();
    let mut i = from;
    while i < to
        invariant
            from <= i <= to <= v@.len(),
            r@ == v@.subrange(from as int, i as int),
        decreases to - i,
    {
        r.push(v[i]);
        proof {
            assert(v@.subrange(from as int, i as int).push(v@[i as int]) =~= v@.subrange(
                from as int,
                i + 1,
            ));
        }
        i = i + 1;
    }
    r
}

} // verus!
