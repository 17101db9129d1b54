//! Covering a watermark: the selection check, the filter handed to the
//! transcoder, and the outcome reported per image.

use vstd::prelude::*;
use vstd::string::StringExecFns;
use crate::text::{decimal_text, has_prefix, push_decimal, same_text, str_strip_prefix, texts};

verus! {

/// The outcome of covering the watermark of one image.
#[derive(Clone, Debug)]
pub struct CropResult {
    pub success: bool,
    pub output_path: String,
    pub message: String,
}

/// The model of a [`CropResult`].
pub struct CropResultView {
    pub success: bool,
    pub output_path: Seq<char>,
    pub message: Seq<char>,
}

impl View for CropResult {
    type V = CropResultView;

    open spec fn view(&self) -> CropResultView {
        CropResultView { success: self.success, output_path: self.output_path@, message: self.message@ }
    }
}

/// What is known of an image before its watermark is selected.
#[derive(Clone, Debug)]
pub struct ImageInfo {
    pub width: u32,
    pub height: u32,
    pub path: String,
    /// A data URL of a small rendition, or the empty string.
    pub thumbnail: String,
}

/// The model of an [`ImageInfo`].
pub struct ImageInfoView {
    pub width: u32,
    pub height: u32,
    pub path: Seq<char>,
    pub thumbnail: Seq<char>,
}

impl View for ImageInfo {
    type V = ImageInfoView;

    open spec fn view(&self) -> ImageInfoView {
        ImageInfoView { width: self.width, height: self.height, path: self.path@, thumbnail: self.thumbnail@ }
    }
}

/// How the watermark is covered.
#[derive(Clone, Copy, PartialEq, Eq, Debug, Structural)]
pub enum CoverMode {
    /// Blur the selection.
    Blur,
    /// Fill the selection with a colour.
    Fill,
}

/// `blur` selects blurring; every other word selects filling.
pub fn cover_mode(mode: &str) -> (selected: CoverMode)
    ensures
        selected == (if mode@ == "blur"@ {
            CoverMode::Blur
        } else {
            CoverMode::Fill
        }),
{
    if same_text(mode, "blur") {
        CoverMode::Blur
    } else {
        CoverMode::Fill
    }
}

/// Describes an image, or fails where a dimension is zero. The thumbnail is
/// optional: without one the field is the empty string.
pub fn image_info(path: String, width: u32, height: u32, thumbnail: Option<String>) -> (info: Result<
    ImageInfo,
    String,
>)
    ensures
        (width == 0 || height == 0) ==> info is Err && info->Err_0@ == "无法获取图片尺寸"@,
        width != 0 && height != 0 ==> info is Ok && info->Ok_0@ == (ImageInfoView {
            width,
            height,
            path: path@,
            thumbnail: match thumbnail {
                Some(thumbnail) => thumbnail@,
                None => Seq::<char>::empty(),
            },
        }),
{
    if width == 0 || height == 0 {
        return Err(String::from_str("无法获取图片尺寸"));
    }
    let thumbnail = match thumbnail {
        Some(thumbnail) => thumbnail,
        None => String::new(),
    };
    Ok(ImageInfo { width, height, path, thumbnail })
}

/// Checks the selection: neither side may be zero.
pub fn check_selection(width: u32, height: u32) -> (checked: Result<(), String>)
    ensures
        (width == 0 || height == 0) ==> checked is Err && checked->Err_0@ == "选区尺寸无效"@,
        width != 0 && height != 0 ==> checked is Ok,
{
    if width == 0 || height == 0 {
        Err(String::from_str("选区尺寸无效"))
    } else {
        Ok(())
    }
}

/// A colour as the transcoder reads it: `#rrggbb` becomes `0xrrggbb`, anything
/// else stays as it is.
pub open spec fn ffmpeg_color_text(color: Seq<char>) -> Seq<char> {
    if has_prefix(color, "#"@) {
        "0x"@ + color.subrange("#"@.len() as int, color.len() as int)
    } else {
        color
    }
}

/// Converts a colour to the form that the transcoder reads.
pub fn ffmpeg_color(color: &str) -> (converted: String)
    ensures
        converted@ == ffmpeg_color_text(color@),
{
    match str_strip_prefix(color, "#") {
        Some(rest) => {
            let mut converted = String::from_str("0x");
            converted.append(rest);
            converted
        },
        None => String::from_str(color),
    }
}

/// The filter that fills the selection with a colour.
pub open spec fn fill_filter_text(x: u32, y: u32, width: u32, height: u32, color: Seq<char>) -> Seq<char> {
    "drawbox=x="@ + decimal_text(x as nat) + ":y="@ + decimal_text(y as nat) + ":w="@ + decimal_text(
        width as nat,
    ) + ":h="@ + decimal_text(height as nat) + ":color="@ + color + ":t=fill"@
}

/// The filter that fills the selection with a colour already in the
/// transcoder's form.
pub fn fill_filter(x: u32, y: u32, width: u32, height: u32, color: &str) -> (filter: String)
    ensures
        filter@ == fill_filter_text(x, y, width, height, color@),
{
    let mut filter = String::from_str("drawbox=x=");
    push_decimal(&mut filter, x as u64);
    filter.append(":y=");
    push_decimal(&mut filter, y as u64);
    filter.append(":w=");
    push_decimal(&mut filter, width as u64);
    filter.append(":h=");
    push_decimal(&mut filter, height as u64);
    filter.append(":color=");
    filter.append(color);
    filter.append(":t=fill");
    filter
}

/// The filter that blurs the selection: crop it, blur the crop, lay it back.
pub open spec fn blur_filter_text(x: u32, y: u32, width: u32, height: u32) -> Seq<char> {
    "[0:v]crop="@ + decimal_text(width as nat) + ":"@ + decimal_text(height as nat) + ":"@ + decimal_text(
        x as nat,
    ) + ":"@ + decimal_text(y as nat) + "[crop];[crop]boxblur=15:3[blur];[0:v][blur]overlay="@
        + decimal_text(x as nat) + ":"@ + decimal_text(y as nat)
}

/// The filter that blurs the selection.
pub fn blur_filter(x: u32, y: u32, width: u32, height: u32) -> (filter: String)
    ensures
        filter@ == blur_filter_text(x, y, width, height),
{
    let mut filter = String::from_str("[0:v]crop=");
    push_decimal(&mut filter, width as u64);
    filter.append(":");
    push_decimal(&mut filter, height as u64);
    filter.append(":");
    push_decimal(&mut filter, x as u64);
    filter.append(":");
    push_decimal(&mut filter, y as u64);
    filter.append("[crop];[crop]boxblur=15:3[blur];[0:v][blur]overlay=");
    push_decimal(&mut filter, x as u64);
    filter.append(":");
    push_decimal(&mut filter, y as u64);
    filter
}

/// The name of the image without its watermark: the stem, `_no_watermark`, a
/// dot and the extension.
pub fn output_file_name(stem: &str, extension: &str) -> (name: String)
    ensures
        name@ == stem@ + "_no_watermark."@ + extension@,
{
    let mut name = String::from_str(stem);
    name.append("_no_watermark.");
    name.append(extension);
    name
}

/// The arguments handed to the transcoder to cover the selection.
pub open spec fn cover_args_text(
    input: Seq<char>,
    output: Seq<char>,
    mode: CoverMode,
    x: u32,
    y: u32,
    width: u32,
    height: u32,
    color: Seq<char>,
) -> Seq<Seq<char>> {
    match mode {
        CoverMode::Blur => seq![
            "-y"@,
            "-i"@,
            input,
            "-filter_complex"@,
            blur_filter_text(x, y, width, height),
            "-q:v"@,
            "1"@,
            output,
        ],
        CoverMode::Fill => seq![
            "-y"@,
            "-i"@,
            input,
            "-vf"@,
            fill_filter_text(x, y, width, height, ffmpeg_color_text(color)),
            "-q:v"@,
            "1"@,
            output,
        ],
    }
}

/// Builds the arguments handed to the transcoder to cover the selection.
pub fn cover_args(
    input: &str,
    output: &str,
    mode: CoverMode,
    x: u32,
    y: u32,
    width: u32,
    height: u32,
    color: &str,
) -> (args: Vec<String>)
    ensures
        texts(args@) == cover_args_text(input@, output@, mode, x, y, width, height, color@),
{
    let mut args: Vec<String> = Vec::new();
    args.push(String::from_str("-y"));
    args.push(String::from_str("-i"));
    args.push(String::from_str(input));
    match mode {
        CoverMode::Blur => {
            args.push(String::from_str("-filter_complex"));
            args.push(blur_filter(x, y, width, height));
        },
        CoverMode::Fill => {
            let converted = ffmpeg_color(color);
            args.push(String::from_str("-vf"));
            args.push(fill_filter(x, y, width, height, converted.as_str()));
        },
    }
    args.push(String::from_str("-q:v"));
    args.push(String::from_str("1"));
    args.push(String::from_str(output));
    assert(texts(args@) =~= cover_args_text(input@, output@, mode, x, y, width, height, color@));
    args
}

/// The outcome for an image that was written to `output_path`.
pub fn crop_succeeded(output_path: String) -> (outcome: CropResult)
    ensures
        outcome@ == (CropResultView {
            success: true,
            output_path: output_path@,
            message: "已保存到: "@ + output_path@,
        }),
{
    let mut message = String::from_str("已保存到: ");
    message.append(output_path.as_str());
    CropResult { success: true, output_path, message }
}

/// The outcome for an image at `path` that could not be processed.
pub fn crop_failed(path: &str, error: &str) -> (outcome: CropResult)
    ensures
        outcome@ == (CropResultView {
            success: false,
            output_path: Seq::<char>::empty(),
            message: path@ + ": "@ + error@,
        }),
{
    let mut message = String::from_str(path);
    message.append(": ");
    message.append(error);
    CropResult { success: false, output_path: String::new(), message }
}

} // verus!
