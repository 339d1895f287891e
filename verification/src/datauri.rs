//! Building a base64 data URI for a file's contents.
//!
//! Two ways to name the MIME type, as the two command-line variants do:
//! from the file's path (its extension), or from the image content
//! itself, with an `icns` extension recognised before the content is
//! consulted.

use vstd::prelude::*;
use vstd::string::StringExecFns;
use vstd::string::StringSliceAdditionalSpecFns;

use base64::Engine;

use crate::errtext::lower_byte;
use crate::errtext::lower_byte_of;

verus! {

/// What the standard base64 engine produces for these bytes.  The full
/// alphabet table is not restated here; the encoding depends on the
/// bytes alone.
pub uninterp spec fn base64_standard_of(bytes: Seq<u8>) -> Seq<char>;

/// The MIME type guessed from a path's extension, or
/// `application/octet-stream` when nothing is known; a function of the
/// path alone.
pub uninterp spec fn mime_of_path(path: Seq<char>) -> Seq<char>;

/// The image formats the data-URI tool tells apart; everything else it
/// serves as a generic byte stream.
#[derive(Clone, Copy, Debug, PartialEq, Eq, Structural)]
pub enum ImageKind {
    Jpeg,
    Png,
    WebP,
    Ico,
    Other,
}

/// The format guessed from an image's leading magic bytes, `None` when
/// they match no known format; a function of the bytes alone.
pub uninterp spec fn guessed_kind_of(bytes: Seq<u8>) -> Option<ImageKind>;

/// Relies on base64's `Engine::encode` with the `STANDARD` engine: the
/// output is four characters for every three input bytes, padded, and
/// depends on the input bytes alone.  The length bound keeps the
/// engine's own size computation from overflowing.
#[verifier::external_body]
fn base64_encode(bytes: &Vec<u8>) -> (r: String)
    requires
        4 * ((bytes@.len() + 2) / 3) <= usize::MAX,
    ensures
        r@ == base64_standard_of(bytes@),
        r@.len() == 4 * ((bytes@.len() + 2) / 3),
{
    base64::engine::general_purpose::STANDARD.encode(bytes.as_slice())
}

/// Relies on `mime_guess::from_path` and
/// `MimeGuess::first_or_octet_stream`: the guess is drawn from the
/// path's extension alone, and there is always an answer.
#[verifier::external_body]
fn mime_for_path(path: &str) -> (r: String)
    ensures
        r@ == mime_of_path(path@),
{
    mime_guess::from_path(path).first_or_octet_stream().to_string()
}

/// Relies on `image::guess_format`: an educated guess from the magic
/// bytes at the start of the buffer, a function of the bytes alone.  The
/// formats the tool does not tell apart come back as `Other`.
#[verifier::external_body]
fn guess_kind(bytes: &Vec<u8>) -> (r: Option<ImageKind>)
    ensures
        r == guessed_kind_of(bytes@),
{
    match image::guess_format(bytes.as_slice()) {
        Ok(image::ImageFormat::Jpeg) => Some(ImageKind::Jpeg),
        Ok(image::ImageFormat::Png) => Some(ImageKind::Png),
        Ok(image::ImageFormat::WebP) => Some(ImageKind::WebP),
        Ok(image::ImageFormat::Ico) => Some(ImageKind::Ico),
        Ok(_) => Some(ImageKind::Other),
        Err(_) => None,
    }
}

/// The MIME label served for each recognised image format.
pub open spec fn mime_label_text(kind: ImageKind) -> Seq<char> {
    match kind {
        ImageKind::Jpeg => "image/jpeg"@,
        ImageKind::Png => "image/png"@,
        ImageKind::WebP => "image/webp"@,
        ImageKind::Ico => "image/x-icon"@,
        ImageKind::Other => "application/octet-stream"@,
    }
}

/// The MIME label served for each recognised image format.
fn mime_label(kind: ImageKind) -> (r: String)
    ensures
        r@ == mime_label_text(kind),
{
    match kind {
        ImageKind::Jpeg => String::from_str("image/jpeg"),
        ImageKind::Png => String::from_str("image/png"),
        ImageKind::WebP => String::from_str("image/webp"),
        ImageKind::Ico => String::from_str("image/x-icon"),
        ImageKind::Other => String::from_str("application/octet-stream"),
    }
}

/// The path ends in an `icns` extension, in any letter case: a final
/// component with a dot that is not its first byte, followed by exactly
/// the four letters.
pub open spec fn is_icns_path(p: Seq<u8>) -> bool {
    exists|d: int|
        {
            &&& 0 < d
            &&& d + 5 == p.len()
            &&& #[trigger] p[d] == 46
            &&& p[d - 1] != 47
            &&& lower_byte(p[d + 1]) == 105
            &&& lower_byte(p[d + 2]) == 99
            &&& lower_byte(p[d + 3]) == 110
            &&& lower_byte(p[d + 4]) == 115
        }
}

/// Whether the path carries an `icns` extension, in any letter case.
fn path_has_icns_ext(path: &str) -> (r: bool)
    ensures
        r == is_icns_path(path.spec_bytes()),
{
    let b = path.as_bytes();
    if b.len() < 6 {
        return false;
    }
    let d = b.len() - 5;
    let r = b[d] == 46 && b[d - 1] != 47 && lower_byte_of(b[d + 1]) == 105 && lower_byte_of(
        b[d + 2],
    ) == 99 && lower_byte_of(b[d + 3]) == 110 && lower_byte_of(b[d + 4]) == 115;
    proof {
        if r {
            assert(is_icns_path(path.spec_bytes())) by {
                assert(0 < d && d + 5 == path.spec_bytes().len() && path.spec_bytes()[d as int]
                    == 46);
            }
        }
    }
    r
}

/// The data URI text for a MIME type and an already-encoded body.
pub open spec fn data_uri_text(mime: Seq<char>, body: Seq<char>) -> Seq<char> {
    "data:"@ + mime + ";base64,"@ + body
}

/// Glue the URI together.
fn compose_data_uri(mime: &str, body: &str) -> (r: String)
    ensures
        r@ == data_uri_text(mime@, body@),
{
    let mut s = String::from_str("data:");
    s.append(mime);
    s.append(";base64,");
    s.append(body);
    s
}

/// The data URI for a file's bytes, with the MIME type guessed from the
/// path's extension.
pub fn file_data_uri(path: &str, bytes: &Vec<u8>) -> (r: String)
    requires
        4 * ((bytes@.len() + 2) / 3) <= usize::MAX,
    ensures
        r@ == data_uri_text(mime_of_path(path@), base64_standard_of(bytes@)),
{
    let mime = mime_for_path(path);
    let body = base64_encode(bytes);
    compose_data_uri(mime.as_str(), body.as_str())
}

/// The MIME type the image variant serves: `image/icns` for an `icns`
/// extension, else the label of the format guessed from the content,
/// `None` when the content matches no known format.
pub open spec fn image_mime(path_bytes: Seq<u8>, bytes: Seq<u8>) -> Option<Seq<char>> {
    if is_icns_path(path_bytes) {
        Option::Some("image/icns"@)
    } else {
        match guessed_kind_of(bytes) {
            Option::None => Option::None,
            Option::Some(k) => Option::Some(mime_label_text(k)),
        }
    }
}

/// The data URI for an image file, with the MIME type taken from the
/// content (after the `icns` extension is honoured); `None` when the
/// bytes match no known image format.
pub fn image_data_uri(path: &str, bytes: &Vec<u8>) -> (r: Option<String>)
    requires
        4 * ((bytes@.len() + 2) / 3) <= usize::MAX,
    ensures
        r is Some <==> image_mime(path.spec_bytes(), bytes@) is Some,
        (r matches Some(u) ==> image_mime(path.spec_bytes(), bytes@) matches Some(mime)
            && u@ == data_uri_text(mime, base64_standard_of(bytes@))),
{
    let mime: String = if path_has_icns_ext(path) {
        String::from_str("image/icns")
    } else {
        match guess_kind(bytes) {
            None => {
                return None;
            },
            Some(k) => mime_label(k),
        }
    };
    let body = base64_encode(bytes);
    Some(compose_data_uri(mime.as_str(), body.as_str()))
}

} // verus!
