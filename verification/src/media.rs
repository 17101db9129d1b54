//! Previews of files: which files can be previewed, how, and the data URL that
//! carries an encoded picture.

use vstd::prelude::*;
use vstd::string::StringExecFns;
use crate::file_stats::{lowercase_text, str_to_lowercase};
use crate::text::{after_last, after_last_dot, same_text, texts};

verus! {

/// How the preview of a file is made.
#[derive(Clone, Copy, PartialEq, Eq, Debug, Structural)]
pub enum PreviewKind {
    /// The file is a PNG picture and is embedded as it is.
    Png,
    /// The file is a GIF picture and is embedded as it is.
    Gif,
    /// The file is a WebP picture and is embedded as it is.
    Webp,
    /// The file is a picture embedded as it is under the JPEG media type.
    Jpeg,
    /// The file is a video: its first frame is extracted.
    Video,
    /// No preview.
    Unsupported,
}

/// The message for a file without preview.
pub open spec fn unsupported_text() -> Seq<char> {
    "不支持的文件类型"@
}

/// The message for a file without preview.
pub fn unsupported_message() -> (text: String)
    ensures
        text@ == unsupported_text(),
{
    String::from_str("不支持的文件类型")
}

/// The kind of preview for a lowercase file ending.
pub open spec fn preview_kind_of(ending: Seq<char>) -> PreviewKind {
    if ending == "png"@ {
        PreviewKind::Png
    } else if ending == "gif"@ {
        PreviewKind::Gif
    } else if ending == "webp"@ {
        PreviewKind::Webp
    } else if ending == "jpg"@ || ending == "jpeg"@ || ending == "bmp"@ {
        PreviewKind::Jpeg
    } else if ending == "mp4"@ || ending == "mov"@ || ending == "avi"@ || ending == "mkv"@ || ending
        == "wmv"@ || ending == "flv"@ || ending == "webm"@ {
        PreviewKind::Video
    } else {
        PreviewKind::Unsupported
    }
}

/// The kind of preview for a lowercase file ending.
pub fn preview_kind(ending: &str) -> (kind: PreviewKind)
    ensures
        kind == preview_kind_of(ending@),
{
    if same_text(ending, "png") {
        PreviewKind::Png
    } else if same_text(ending, "gif") {
        PreviewKind::Gif
    } else if same_text(ending, "webp") {
        PreviewKind::Webp
    } else if same_text(ending, "jpg") || same_text(ending, "jpeg") || same_text(ending, "bmp") {
        PreviewKind::Jpeg
    } else if same_text(ending, "mp4") || same_text(ending, "mov") || same_text(ending, "avi")
        || same_text(ending, "mkv") || same_text(ending, "wmv") || same_text(ending, "flv")
        || same_text(ending, "webm") {
        PreviewKind::Video
    } else {
        PreviewKind::Unsupported
    }
}

/// The kind of preview for a path: that of what follows the last dot of the
/// path in lowercase.
pub fn preview_kind_of_path(path: &str) -> (kind: PreviewKind)
    ensures
        kind == preview_kind_of(after_last(lowercase_text(path@), '.')),
{
    let lower = str_to_lowercase(path);
    let ending = after_last_dot(lower.as_str());
    preview_kind(ending.as_str())
}

/// The media type under which a picture is embedded.
pub open spec fn media_type_text(kind: PreviewKind) -> Seq<char> {
    match kind {
        PreviewKind::Png => "image/png"@,
        PreviewKind::Gif => "image/gif"@,
        PreviewKind::Webp => "image/webp"@,
        _ => "image/jpeg"@,
    }
}

/// The media type under which a picture is embedded; an extracted video frame
/// is a JPEG picture.
pub fn media_type(kind: PreviewKind) -> (name: &'static str)
    ensures
        name@ == media_type_text(kind),
{
    match kind {
        PreviewKind::Png => "image/png",
        PreviewKind::Gif => "image/gif",
        PreviewKind::Webp => "image/webp",
        _ => "image/jpeg",
    }
}

/// The standard base64 text of a byte string, with padding, as the `STANDARD`
/// engine of the `base64` crate encodes it.
pub uninterp spec fn base64_text(data: Seq<u8>) -> Seq<char>;

/// Whether the base64 text of so many bytes has a length that fits `usize`.
pub open spec fn base64_fits(len: nat) -> bool {
    len / 3 * 4 + 4 <= usize::MAX
}

/// `base64::Engine::encode` on `general_purpose::STANDARD`: the encoding is a
/// function of the bytes alone. The bound leaves out the inputs on which the
/// crate gives up because the encoded length overflows.
#[verifier::external_body]
fn base64_encode(data: &[u8]) -> (text: String)
    requires
        base64_fits(data@.len()),
    ensures
        text@ == base64_text(data@),
{
    base64::Engine::encode(&base64::engine::general_purpose::STANDARD, data)
}

/// A data URL from a media type and the base64 text of the content.
pub open spec fn data_url_text(media_type: Seq<char>, encoded: Seq<char>) -> Seq<char> {
    "data:"@ + media_type + ";base64,"@ + encoded
}

/// Puts together a data URL from a media type and encoded content.
pub fn data_url_from(media_type: &str, encoded: &str) -> (url: String)
    ensures
        url@ == data_url_text(media_type@, encoded@),
{
    let mut url = String::from_str("data:");
    url.append(media_type);
    url.append(";base64,");
    url.append(encoded);
    url
}

/// The data URL that embeds `data` under a media type.
pub fn data_url(media_type: &str, data: &[u8]) -> (url: String)
    requires
        base64_fits(data@.len()),
    ensures
        url@ == data_url_text(media_type@, base64_text(data@)),
{
    let encoded = base64_encode(data);
    data_url_from(media_type, encoded.as_str())
}

/// The arguments that make the transcoder write the first frame of a video,
/// scaled to the given width, to `output`.
pub open spec fn frame_args_text(input: Seq<char>, output: Seq<char>) -> Seq<Seq<char>> {
    seq![
        "-y"@,
        "-ss"@,
        "0"@,
        "-i"@,
        input,
        "-vframes"@,
        "1"@,
        "-vf"@,
        "scale=120:-1"@,
        "-q:v"@,
        "5"@,
        output,
    ]
}

/// Builds the arguments that extract the preview frame of a video.
pub fn frame_args(input: &str, output: &str) -> (args: Vec<String>)
    ensures
        texts(args@) == frame_args_text(input@, output@),
{
    let mut args: Vec<String> = Vec::new();
    args.push(String::from_str("-y"));
    args.push(String::from_str("-ss"));
    args.push(String::from_str("0"));
    args.push(String::from_str("-i"));
    args.push(String::from_str(input));
    args.push(String::from_str("-vframes"));
    args.push(String::from_str("1"));
    args.push(String::from_str("-vf"));
    args.push(String::from_str("scale=120:-1"));
    args.push(String::from_str("-q:v"));
    args.push(String::from_str("5"));
    args.push(String::from_str(output));
    assert(texts(args@) =~= frame_args_text(input@, output@));
    args
}

/// The arguments that make the transcoder write a rendition of an image, 400
/// pixels wide, to `output`.
pub open spec fn rendition_args_text(input: Seq<char>, output: Seq<char>) -> Seq<Seq<char>> {
    seq!["-y"@, "-i"@, input, "-vf"@, "scale=400:-1"@, "-q:v"@, "5"@, output]
}

/// Builds the arguments that write the rendition of an image.
pub fn rendition_args(input: &str, output: &str) -> (args: Vec<String>)
    ensures
        texts(args@) == rendition_args_text(input@, output@),
{
    let mut args: Vec<String> = Vec::new();
    args.push(String::from_str("-y"));
    args.push(String::from_str("-i"));
    args.push(String::from_str(input));
    args.push(String::from_str("-vf"));
    args.push(String::from_str("scale=400:-1"));
    args.push(String::from_str("-q:v"));
    args.push(String::from_str("5"));
    args.push(String::from_str(output));
    assert(texts(args@) =~= rendition_args_text(input@, output@));
    args
}

} // verus!
