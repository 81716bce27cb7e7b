//! Images for multimodal turns: MIME types and base64 data URIs.

use vstd::prelude::*;

use crate::text::str_eq;

verus! {

/// The character for six bits in the standard alphabet of base64.
pub open spec fn base64_digit(n: int) -> char {
    if n < 26 {
        (65 + n) as char
    } else if n < 52 {
        (71 + n) as char
    } else if n < 62 {
        (n - 4) as char
    } else if n == 62 {
        '+'
    } else {
        '/'
    }
}

/// The four characters for one to three bytes: what bits are missing are zero,
/// and a character that would hold nothing else is `=`.
pub open spec fn base64_group(bytes: Seq<u8>) -> Seq<char> {
    let second = if bytes.len() > 1 {
        bytes[1] as int
    } else {
        0
    };
    let third = if bytes.len() > 2 {
        bytes[2] as int
    } else {
        0
    };
    let n = bytes[0] * 65_536 + second * 256 + third;
    seq![
        base64_digit(n / 262_144),
        base64_digit(n / 4_096 % 64),
        if bytes.len() > 1 {
            base64_digit(n / 64 % 64)
        } else {
            '='
        },
        if bytes.len() > 2 {
            base64_digit(n % 64)
        } else {
            '='
        },
    ]
}

/// The base64 text (standard alphabet, padded) of a byte string.
pub open spec fn base64_text(bytes: Seq<u8>) -> Seq<char>
    decreases bytes.len(),
{
    if bytes.len() == 0 {
        Seq::empty()
    } else if bytes.len() <= 3 {
        base64_group(bytes)
    } else {
        base64_group(bytes.take(3)) + base64_text(bytes.skip(3))
    }
}

/// `base64`'s `Engine::encode` with the `STANDARD` engine: the text is the
/// `base64_text` of the bytes. The encoder allocates the whole
/// text at once, which fails beyond the largest allocation, hence the bound.
#[verifier::external_body]
pub(crate) fn encode_base64(bytes: &[u8]) -> (r: String)
    requires
        bytes@.len() <= usize::MAX / 4,
    ensures
        r@ == base64_text(bytes@),
{
    base64::Engine::encode(&base64::engine::general_purpose::STANDARD, bytes)
}

/// The MIME type that a file extension stands for.
pub open spec fn mime_of(extension: Option<Seq<char>>) -> Seq<char> {
    match extension {
        Some(e) => if e == "png"@ {
            "image/png"@
        } else if e == "jpg"@ || e == "jpeg"@ {
            "image/jpeg"@
        } else if e == "gif"@ {
            "image/gif"@
        } else if e == "webp"@ {
            "image/webp"@
        } else if e == "bmp"@ {
            "image/bmp"@
        } else if e == "tiff"@ || e == "tif"@ {
            "image/tiff"@
        } else if e == "pdf"@ {
            "application/pdf"@
        } else {
            "image/png"@
        },
        None => "image/png"@,
    }
}

/// The characters of an optional string slice.
pub open spec fn opt_slice(s: Option<&str>) -> Option<Seq<char>> {
    match s {
        Some(s) => Some(s@),
        None => None,
    }
}

/// Best-effort MIME type from a file extension.
pub fn mime_from_ext(extension: Option<&str>) -> (r: &'static str)
    ensures
        r@ == mime_of(opt_slice(extension)),
{
    match extension {
        Some(e) => if str_eq(e, "png") {
            "image/png"
        } else if str_eq(e, "jpg") || str_eq(e, "jpeg") {
            "image/jpeg"
        } else if str_eq(e, "gif") {
            "image/gif"
        } else if str_eq(e, "webp") {
            "image/webp"
        } else if str_eq(e, "bmp") {
            "image/bmp"
        } else if str_eq(e, "tiff") || str_eq(e, "tif") {
            "image/tiff"
        } else if str_eq(e, "pdf") {
            "application/pdf"
        } else {
            "image/png"
        },
        None => "image/png",
    }
}

/// The base64 data URI of an image: its bytes, and the MIME type that the
/// extension of its path stands for.
pub fn image_to_data_uri(extension: Option<&str>, bytes: &[u8]) -> (r: String)
    requires
        bytes@.len() <= usize::MAX / 4,
    ensures
        r@ == "data:"@ + mime_of(opt_slice(extension)) + ";base64,"@ + base64_text(bytes@),
{
    let encoded = encode_base64(bytes);
    "data:".to_owned().concat(mime_from_ext(extension)).concat(";base64,").concat(encoded.as_str())
}

} // verus!
