//! Uploads: which kind of image a file is, by its first bytes, and the
//! name under which it is kept.

use crate::routing::{post_route, Method, Route};
use crate::seqs::views;
use crate::text::{lower, lower_text};
use vstd::prelude::*;
use vstd::string::StringExecFns;

verus! {

/// Whether `content` starts with `mark`.
pub open spec fn starts_with(content: Seq<u8>, mark: Seq<u8>) -> bool {
    mark.len() <= content.len() && content.take(mark.len() as int) == mark
}

/// The bytes that a JPEG file starts with.
pub open spec fn jpeg_mark() -> Seq<u8> {
    seq![0xffu8, 0xd8u8, 0xffu8]
}

/// The bytes that a PNG file starts with.
pub open spec fn png_mark() -> Seq<u8> {
    seq![0x89u8, 0x50u8, 0x4eu8, 0x47u8, 0x0du8, 0x0au8, 0x1au8, 0x0au8]
}

/// `GIF87a`.
pub open spec fn gif_mark_1987() -> Seq<u8> {
    seq![0x47u8, 0x49u8, 0x46u8, 0x38u8, 0x37u8, 0x61u8]
}

/// `GIF89a`.
pub open spec fn gif_mark_1989() -> Seq<u8> {
    seq![0x47u8, 0x49u8, 0x46u8, 0x38u8, 0x39u8, 0x61u8]
}

/// `RIFF`.
pub open spec fn riff_mark() -> Seq<u8> {
    seq![0x52u8, 0x49u8, 0x46u8, 0x46u8]
}

/// `WEBP`.
pub open spec fn webp_mark() -> Seq<u8> {
    seq![0x57u8, 0x45u8, 0x42u8, 0x50u8]
}

/// The kind of image that `content` is by its first bytes, as a file
/// extension. Content of fewer than eight bytes has no kind.
pub open spec fn image_type(content: Seq<u8>) -> Option<Seq<char>> {
    if content.len() < 8 {
        None
    } else if starts_with(content, jpeg_mark()) {
        Some("jpg"@)
    } else if starts_with(content, png_mark()) {
        Some("png"@)
    } else if starts_with(content, gif_mark_1987()) || starts_with(content, gif_mark_1989()) {
        Some("gif"@)
    } else if starts_with(content, riff_mark()) && content.len() > 12 && content.subrange(8, 12)
        == webp_mark() {
        Some("webp"@)
    } else {
        None
    }
}

/// Whether the bytes of `content` from `at` on are those of `mark`.
fn holds_at(content: &[u8], at: usize, mark: &[u8]) -> (out: bool)
    requires
        at + mark.len() <= content.len(),
    ensures
        out == (content@.subrange(at as int, at + mark.len()) == mark@),
{
    let mut i: usize = 0;
    while i < mark.len()
        invariant
            i <= mark.len(),
            at + mark.len() <= content.len(),
            forall|k: int| 0 <= k < i ==> content@[at + k] == mark@[k],
        decreases mark.len() - i,
    {
        if content[at + i] != mark[i] {
            proof {
                assert(content@.subrange(at as int, at + mark.len())[i as int] == content@[at + i]);
            }
            return false;
        }
        i += 1;
    }
    proof {
        assert(content@.subrange(at as int, at + mark.len()) =~= mark@);
    }
    true
}

/// The kind of image that `content` is by its first bytes.
pub fn detect_image_type(content: &[u8]) -> (out: Option<&'static str>)
    ensures
        out is Some <==> image_type(content@) is Some,
        out matches Some(kind) ==> Some(kind@) == image_type(content@),
{
    if content.len() < 8 {
        return None;
    }
    let jpeg: [u8; 3] = [0xff, 0xd8, 0xff];
    let png: [u8; 8] = [0x89, 0x50, 0x4e, 0x47, 0x0d, 0x0a, 0x1a, 0x0a];
    let gif_1987: [u8; 6] = [0x47, 0x49, 0x46, 0x38, 0x37, 0x61];
    let gif_1989: [u8; 6] = [0x47, 0x49, 0x46, 0x38, 0x39, 0x61];
    let riff: [u8; 4] = [0x52, 0x49, 0x46, 0x46];
    let webp: [u8; 4] = [0x57, 0x45, 0x42, 0x50];
    proof {
        assert(jpeg@ =~= jpeg_mark());
        assert(png@ =~= png_mark());
        assert(gif_1987@ =~= gif_mark_1987());
        assert(gif_1989@ =~= gif_mark_1989());
        assert(riff@ =~= riff_mark());
        assert(webp@ =~= webp_mark());
        assert(content@.take(3) =~= content@.subrange(0, 3));
        assert(content@.take(8) =~= content@.subrange(0, 8));
        assert(content@.take(6) =~= content@.subrange(0, 6));
        assert(content@.take(4) =~= content@.subrange(0, 4));
    }
    if holds_at(content, 0, jpeg.as_slice()) {
        Some("jpg")
    } else if holds_at(content, 0, png.as_slice()) {
        Some("png")
    } else if holds_at(content, 0, gif_1987.as_slice()) || holds_at(
        content,
        0,
        gif_1989.as_slice(),
    ) {
        Some("gif")
    } else if holds_at(content, 0, riff.as_slice()) && content.len() > 12 && holds_at(
        content,
        8,
        webp.as_slice(),
    ) {
        Some("webp")
    } else {
        None
    }
}

/// Whether `name` is one of `jpg`, `jpeg`, `png`, `gif` and `webp`.
pub open spec fn is_image_name(name: Seq<char>) -> bool {
    name == "jpg"@ || name == "jpeg"@ || name == "png"@ || name == "gif"@ || name == "webp"@
}

/// Whether a file extension, in lower case, is one of an image that is
/// taken.
pub open spec fn is_image_extension(ext: Seq<char>) -> bool {
    is_image_name(lower(ext))
}

/// Whether `name`, an extension in lower case, is one of an image that is
/// taken.
pub fn names_image(name: &String) -> (out: bool)
    ensures
        out == is_image_name(name@),
{
    *name == String::from_str("jpg") || *name == String::from_str("jpeg") || *name
        == String::from_str("png") || *name == String::from_str("gif") || *name
        == String::from_str("webp")
}

/// Whether a file with the extension `ext` is taken: the extension is,
/// whatever the case of its letters, one of `jpg`, `jpeg`, `png`, `gif` and
/// `webp`.
pub fn is_allowed_extension(ext: &str) -> (out: bool)
    ensures
        out == is_image_extension(ext@),
{
    let folded = lower_text(ext);
    names_image(&folded)
}

/// The name under which an upload is kept: its kind, a token and its
/// extension.
pub fn upload_file_name(upload_type: &str, token: &str, extension: &str) -> (out: String)
    ensures
        out@ == upload_type@ + "_"@ + token@ + "."@ + extension@,
{
    let mut name = String::from_str(upload_type);
    name.append("_");
    name.append(token);
    name.append(".");
    name.append(extension);
    name
}

/// A token for the name of an upload. The body calls `uuid::Uuid::new_v4`,
/// which draws a random identifier from the random bytes of the machine,
/// and writes it as text; it does not return where the machine gives no
/// random bytes. Nothing is stated of the token, not even that no other
/// upload has it.
#[verifier::external_body]
fn fresh_token() -> (out: String) {
    uuid::Uuid::new_v4().to_string()
}

/// Why an upload is not taken.
#[derive(Debug, Clone, PartialEq, Eq)]
pub enum UploadError {
    /// The file is no image that is taken; the extension that was found
    /// for it comes along.
    InvalidType(String),
}

/// The extension of an upload: the kind of image that its content is, or,
/// where the content tells none, the extension of the name of the file.
pub open spec fn chosen_extension(content: Seq<u8>, named: Seq<char>) -> Seq<char> {
    match image_type(content) {
        Some(kind) => kind,
        None => named,
    }
}

/// The name under which the upload is kept: its kind, a fresh token and
/// its extension. Refuses an upload whose extension is not one of an image
/// that is taken.
pub fn name_upload(content: &[u8], named_extension: &str, upload_type: &str) -> (out: Result<
    String,
    UploadError,
>)
    ensures
        out is Ok <==> is_image_extension(chosen_extension(content@, named_extension@)),
        out matches Ok(name) ==> exists|token: Seq<char>|
            name@ == #[trigger] (upload_type@ + "_"@ + token) + "."@ + chosen_extension(
                content@,
                named_extension@,
            ),
        out matches Err(UploadError::InvalidType(found)) ==> found@ == chosen_extension(
            content@,
            named_extension@,
        ),
{
    let extension = match detect_image_type(content) {
        Some(kind) => kind,
        None => named_extension,
    };
    if !is_allowed_extension(extension) {
        return Err(UploadError::InvalidType(String::from_str(extension)));
    }
    let token = fresh_token();
    let name = upload_file_name(upload_type, token.as_str(), extension);
    proof {
        assert(name@ == (upload_type@ + "_"@ + token@) + "."@ + extension@);
    }
    Ok(name)
}

/// The route of the uploads.
pub fn get_upload_routes() -> (out: Vec<Route>)
    ensures
        views(out@) == seq![post_route("/"@, "upload_file"@)],
{
    let mut out: Vec<Route> = Vec::new();
    out.push(Route { method: Method::Post, path: "/", handler: "upload_file" });
    proof {
        assert(views(out@) =~= seq![post_route("/"@, "upload_file"@)]);
    }
    out
}

/// The answer of the health check.
pub fn health() -> (out: &'static str)
    ensures
        out@ == "ok"@,
{
    "ok"
}

} // verus!
