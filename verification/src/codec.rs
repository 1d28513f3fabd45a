//! The trusted boundary to the outside text codecs: Unicode normalization
//! (`unicode_normalization`), byte re-encoding (`encoding_rs`) and the
//! CJK code-point predicate (`cjk`). Every function here either carries an
//! `assume_specification` for the outside function itself or wraps the
//! call in an `external_body` body; the names below stand for the results
//! that would take pages to state.

use vstd::prelude::*;
use unicode_normalization::UnicodeNormalization;

verus! {

/// Canonical composition (NFC) of a character sequence, as
/// `unicode_normalization` computes it.
pub uninterp spec fn nfc_of(s: Seq<char>) -> Seq<char>;

/// Canonical decomposition (NFD) of a character sequence, as
/// `unicode_normalization` computes it.
pub uninterp spec fn nfd_of(s: Seq<char>) -> Seq<char>;

/// Compatibility composition (NFKC) of a character sequence, as
/// `unicode_normalization` computes it.
pub uninterp spec fn nfkc_of(s: Seq<char>) -> Seq<char>;

/// Compatibility decomposition (NFKD) of a character sequence, as
/// `unicode_normalization` computes it.
pub uninterp spec fn nfkd_of(s: Seq<char>) -> Seq<char>;

/// Relies on `unicode_normalization::is_nfc`: the authoritative check is
/// true exactly when recomposing the string changes nothing.
pub assume_specification[ unicode_normalization::is_nfc ](s: &str) -> (r: bool)
    ensures
        r == (nfc_of(s@) == s@),
;

/// Relies on `unicode_normalization::is_nfd`: the authoritative check is
/// true exactly when decomposing the string changes nothing.
pub assume_specification[ unicode_normalization::is_nfd ](s: &str) -> (r: bool)
    ensures
        r == (nfd_of(s@) == s@),
;

/// Relies on `unicode_normalization::is_nfkc`: the authoritative check is
/// true exactly when compatibility recomposition changes nothing.
pub assume_specification[ unicode_normalization::is_nfkc ](s: &str) -> (r: bool)
    ensures
        r == (nfkc_of(s@) == s@),
;

/// Relies on `unicode_normalization::is_nfkd`: the authoritative check is
/// true exactly when compatibility decomposition changes nothing.
pub assume_specification[ unicode_normalization::is_nfkd ](s: &str) -> (r: bool)
    ensures
        r == (nfkd_of(s@) == s@),
;

/// Relies on `UnicodeNormalization::nfc` for `&str`: the recomposition
/// depends on the characters alone, and normalization is idempotent, so
/// the result is itself in NFC form.
#[verifier::external_body]
pub fn to_nfc(s: &str) -> (r: String)
    ensures
        r@ == nfc_of(s@),
        nfc_of(r@) == r@,
{
    s.nfc().collect()
}

/// Relies on `UnicodeNormalization::nfd` for `&str`: the decomposition
/// depends on the characters alone, and normalization is idempotent, so
/// the result is itself in NFD form.
#[verifier::external_body]
pub fn to_nfd(s: &str) -> (r: String)
    ensures
        r@ == nfd_of(s@),
        nfd_of(r@) == r@,
{
    s.nfd().collect()
}

/// Whether the Encoding Standard's label table resolves `label`, that is,
/// whether `encoding_rs::Encoding::for_label` returns an encoding for it.
pub uninterp spec fn known_label(label: Seq<char>) -> bool;

/// The text that comes out of encoding `s` as the encoding labelled
/// `from` and decoding the resulting bytes as the encoding labelled `to`,
/// as `encoding_rs` computes it. Defined only where both labels are known.
pub uninterp spec fn recoded_of(from: Seq<char>, to: Seq<char>, s: Seq<char>) -> Seq<char>;

/// The text that comes out of encoding `s` as Windows-1252 and decoding
/// the resulting bytes as GBK, as `encoding_rs` computes it with the
/// `WINDOWS_1252` and `GBK` encodings.
pub uninterp spec fn unbaked_of(s: Seq<char>) -> Seq<char>;

/// Relies on `encoding_rs::Encoding::for_label`, `Encoding::encode` and
/// `Encoding::decode_without_bom_handling`: the lookup and both
/// conversions depend on the two labels and the text alone. Decoding is
/// done without BOM sniffing, so the bytes are read as the named charset
/// and nothing else. The label `"utf-8"` resolves to `UTF_8`, whose
/// `encode` returns the string's own bytes and whose
/// `decode_without_bom_handling` gives valid UTF-8 input back unchanged,
/// so recoding through it is the identity. The length bound keeps the
/// input clear of the one input class on which `encode` may panic (a
/// buffer-size calculation overflowing `usize`).
#[verifier::external_body]
pub fn recode_text(from: &str, to: &str, s: &str) -> (r: Option<String>)
    requires
        s@.len() < 0x1000_0000_0000_0000,
    ensures
        (r is Some) == (known_label(from@) && known_label(to@)),
        r matches Some(t) ==> t@ == recoded_of(from@, to@, s@),
        match r {
            Some(t) => from@ == "utf-8"@ && to@ == "utf-8"@ ==> t@ == s@,
            None => !(from@ == "utf-8"@ && to@ == "utf-8"@),
        },
{
    let from_enc = match encoding_rs::Encoding::for_label(from.as_bytes()) {
        Some(e) => e,
        None => return None,
    };
    let to_enc = match encoding_rs::Encoding::for_label(to.as_bytes()) {
        Some(e) => e,
        None => return None,
    };
    let (bytes, _, _) = from_enc.encode(s);
    let (text, _) = to_enc.decode_without_bom_handling(&bytes);
    Some(text.into_owned())
}

/// Relies on `encoding_rs::WINDOWS_1252.encode` and
/// `encoding_rs::GBK.decode_without_bom_handling`: re-reads the text's
/// Windows-1252 bytes as GBK, and as nothing else (no BOM sniffing); the
/// result depends on the text alone. The length bound keeps the input
/// clear of `encode`'s buffer-size-overflow panic.
#[verifier::external_body]
pub fn unbake_windows_1252_gbk(s: &str) -> (r: String)
    requires
        s@.len() < 0x1000_0000_0000_0000,
    ensures
        r@ == unbaked_of(s@),
{
    let (bytes, _, _) = encoding_rs::WINDOWS_1252.encode(s);
    let (text, _) = encoding_rs::GBK.decode_without_bom_handling(&bytes);
    text.into_owned()
}

/// Whether the `cjk` crate counts this code point as CJK-ish: a CJK
/// ideograph, or one of the blocks its punctuation check accepts (which
/// include ASCII and general punctuation).
pub uninterp spec fn cjkish(c: char) -> bool;

/// Relies on `cjk::is_cjkish_codepoint`: a pure predicate on the code point.
pub assume_specification[ cjk::is_cjkish_codepoint ](c: char) -> (r: bool)
    ensures
        r == cjkish(c),
;

} // verus!
